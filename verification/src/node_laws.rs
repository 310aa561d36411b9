//! What a node decides about its cluster, its rounds and its figures.
use vstd::prelude::*;

use crate::cluster::{
    clamped, lowest_online, member_actions, member_add_failure, member_answer, storage_reply,
    used_percent, used_space, AddFailure, ClusterMessage, MemberAction, MemberAnswer,
    StorageStatsCache,
};
use crate::dispatch::{counted, op_class, sizes_or_zero, OpClass, RequestKind};
use crate::loops::{
    compact_failure, cut_off, fragmented, head_step, holds_some, lacking, next_backoff, occurs,
    other_nodes, since, younger, CompactOutcome, HeadStep,
};
use crate::protocol::{DeleteQueueEntry, Response};
use crate::stats::{
    bumped, is_snapshot, peak_meta, peak_reads, peak_writes, remembered, sum_meta, sum_reads,
    sum_writes, NodeStatsSnapshot, RpcClass, RpcClassSnapshot, Second,
};
use crate::types::{FileRec, Loc, NodeId, NodeInfo, NodeStatus};

verus! {

// ---------------------------------------------------------------------------
// The cluster.
// ---------------------------------------------------------------------------

/// The leader is a node that is online, and none that is online has a lower identity; there is
/// none just where no node is online.
pub proof fn the_leader_is_online_and_lowest(nodes: Seq<NodeInfo>, i: int)
    ensures
        lowest_online(nodes) is Some ==> exists|k: int|
            0 <= k < nodes.len() && (#[trigger] nodes[k]).id == lowest_online(nodes)->0
                && nodes[k].status == NodeStatus::Online,
        0 <= i < nodes.len() && nodes[i].status == NodeStatus::Online ==> lowest_online(
            nodes,
        ) is Some && lowest_online(nodes)->0.id <= nodes[i].id.id,
    decreases nodes.len(),
{
    if nodes.len() > 0 {
        let init = nodes.drop_last();
        let last = nodes.len() - 1;
        the_leader_is_online_and_lowest(init, i);
        if 0 <= i < init.len() {
            assert(init[i] == nodes[i]);
        }
        if lowest_online(nodes) is Some {
            if nodes[last].status == NodeStatus::Online && lowest_online(nodes)->0
                == nodes[last].id {
            } else {
                let k = choose|k: int|
                    0 <= k < init.len() && (#[trigger] init[k]).id == lowest_online(init)->0
                        && init[k].status == NodeStatus::Online;
                assert(nodes[k].id == lowest_online(nodes)->0);
            }
        }
    }
}

/// Used is what is not available, and never less than nothing; the reply carries the other
/// figures as they were taken.
pub proof fn used_space_is_what_is_not_available(c: StorageStatsCache, nodes_count: usize, rf: usize)
    ensures
        c.available_space <= c.total_space ==> used_space(c.total_space, c.available_space)
            + c.available_space == c.total_space,
        c.available_space > c.total_space ==> used_space(c.total_space, c.available_space) == 0,
        match storage_reply(c, nodes_count, rf) {
            Response::StorageStats {
                total_chunks,
                total_size,
                replication_factor,
                nodes_count: n,
                total_space,
                free_space,
                available_space,
            } => {
                &&& total_chunks == c.total_chunks
                &&& total_size == used_space(c.total_space, c.available_space)
                &&& replication_factor == rf
                &&& n == nodes_count
                &&& total_space == c.total_space
                &&& free_space == c.free_space
                &&& available_space == c.available_space
            },
            _ => false,
        },
{
}

/// The used part of a disk in percent, rounded down: that many hundredths are used, and not one
/// more. A disk of no size counts as unused.
pub proof fn used_percent_is_rounded_down(total: u64, available: u64)
    requires
        available <= total,
    ensures
        total > 0 ==> used_percent(total, available) * total <= 100 * (total - available)
            < used_percent(total, available) * total + total,
        total == 0 ==> used_percent(total, available) == 0,
{
    if total > 0 {
        let x: int = 100 * (total - available);
        let n = total as int;
        vstd::arithmetic::div_mod::lemma_fundamental_div_mod(x, n);
        vstd::arithmetic::div_mod::lemma_mod_bound(x, n);
        assert(n * (x / n) == (x / n) * n) by (nonlinear_arith);
    }
}

/// A number within its bounds stays, and one beyond them goes to the nearer bound.
pub proof fn clamping_stays_within_bounds(n: usize, lo: usize, hi: usize)
    requires
        lo <= hi,
    ensures
        lo <= clamped(n, lo, hi) <= hi,
        lo <= n <= hi ==> clamped(n, lo, hi) == n,
        n < lo ==> clamped(n, lo, hi) == lo,
        n > hi ==> clamped(n, lo, hi) == hi,
{
}

/// What a heartbeat makes a node do: add and stamp the sender; note its capacity just if it
/// reports any; store the list of peers just if the sender was not known; merge the view just if
/// it carries one, and look at the heal bandwidth just if it carries that.
pub proof fn a_heartbeat_is_taken_in(
    node: NodeInfo,
    has_view: bool,
    bandwidth: Option<u64>,
    known: bool,
    local: NodeId,
    a: MemberAction,
)
    ensures
        ({
            let msg = ClusterMessage::Heartbeat {
                node: node,
                has_view: has_view,
                heal_bandwidth_target_mb: bandwidth,
            };
            member_actions(msg, known, local).contains(a) <==> match a {
                MemberAction::NoteCapacity { node: n, available, total } => node.total_bytes > 0
                    && n == node.id && available == node.available_bytes && total
                    == node.total_bytes,
                MemberAction::Add(n) => n == node.id,
                MemberAction::Stamp(n) => n == node.id,
                MemberAction::StorePeers => !known,
                MemberAction::MergeView => has_view,
                MemberAction::FollowBandwidth { node: n, target_mb } => n == node.id && bandwidth
                    == Some(target_mb),
                MemberAction::Remove(_) => false,
                MemberAction::MarkLeaving(_) => false,
            }
        }),
{
    let note = if node.total_bytes > 0 {
        seq![
            MemberAction::NoteCapacity {
                node: node.id,
                available: node.available_bytes,
                total: node.total_bytes,
            },
        ]
    } else {
        Seq::<MemberAction>::empty()
    };
    let add = seq![MemberAction::Add(node.id)];
    let store = if !known {
        seq![MemberAction::StorePeers]
    } else {
        Seq::<MemberAction>::empty()
    };
    let stamp = seq![MemberAction::Stamp(node.id)];
    let view = if has_view {
        seq![MemberAction::MergeView]
    } else {
        Seq::<MemberAction>::empty()
    };
    let follow = match bandwidth {
        Some(mb) => seq![MemberAction::FollowBandwidth { node: node.id, target_mb: mb }],
        None => Seq::<MemberAction>::empty(),
    };
    parts_members(note, add, a);
    parts_members(note + add, store, a);
    parts_members(note + add + store, stamp, a);
    parts_members(note + add + store + stamp, view, a);
    parts_members(note + add + store + stamp + view, follow, a);
    one_member(MemberAction::Add(node.id), a);
    one_member(MemberAction::Stamp(node.id), a);
    one_member(MemberAction::StorePeers, a);
    one_member(MemberAction::MergeView, a);
    one_member(
        MemberAction::NoteCapacity {
            node: node.id,
            available: node.available_bytes,
            total: node.total_bytes,
        },
        a,
    );
    if bandwidth is Some {
        one_member(MemberAction::FollowBandwidth { node: node.id, target_mb: bandwidth->0 }, a);
    }
}

proof fn parts_members(s: Seq<MemberAction>, t: Seq<MemberAction>, a: MemberAction)
    ensures
        (s + t).contains(a) <==> s.contains(a) || t.contains(a),
{
    if s.contains(a) {
        let k = choose|k: int| 0 <= k < s.len() && s[k] == a;
        assert((s + t)[k] == a);
    }
    if t.contains(a) {
        let k = choose|k: int| 0 <= k < t.len() && t[k] == a;
        assert((s + t)[s.len() + k] == a);
    }
    if (s + t).contains(a) {
        let k = choose|k: int| 0 <= k < (s + t).len() && (s + t)[k] == a;
        if k < s.len() {
            assert(s[k] == a);
        } else {
            assert(t[k - s.len()] == a);
        }
    }
}

proof fn one_member(x: MemberAction, a: MemberAction)
    ensures
        seq![x].contains(a) <==> a == x,
{
    assert(seq![x][0] == x);
}

/// What the other messages make a node do. One that joins is added and stamped, and the list of
/// peers is stored just if it is new; one that leaves is removed; of one that others say has
/// joined, it is added and stored just if it is new; a leader is added just if its identity is
/// lower than this node's; one that is about to leave is marked.
pub proof fn membership_follows_the_message(
    node: NodeInfo,
    id: NodeId,
    known: bool,
    local: NodeId,
    a: MemberAction,
)
    ensures
        member_actions(ClusterMessage::Join { node }, known, local).contains(a) <==> a
            == MemberAction::Add(node.id) || a == MemberAction::Stamp(node.id) || (!known && a
            == MemberAction::StorePeers),
        member_actions(ClusterMessage::JoinRequest { node }, known, local).contains(a) <==> a
            == MemberAction::Add(node.id) || a == MemberAction::Stamp(node.id) || (!known && a
            == MemberAction::StorePeers),
        member_actions(ClusterMessage::Leave { node_id: id }, known, local).contains(a) <==> a
            == MemberAction::Remove(id),
        member_actions(ClusterMessage::NodeJoined { node }, known, local).contains(a) <==> !known
            && (a == MemberAction::Add(node.id) || a == MemberAction::StorePeers),
        member_actions(
            ClusterMessage::LeaderAnnouncement { node_id: id },
            known,
            local,
        ).contains(a) <==> id.id < local.id && a == MemberAction::Add(id),
        member_actions(ClusterMessage::GracefulLeave { node_id: id }, known, local).contains(a)
            <==> a == MemberAction::MarkLeaving(id),
        !member_actions(ClusterMessage::Unknown, known, local).contains(a),
{
    let join = seq![MemberAction::Add(node.id), MemberAction::Stamp(node.id)];
    assert(join[0] == MemberAction::Add(node.id));
    assert(join[1] == MemberAction::Stamp(node.id));
    one_member(MemberAction::StorePeers, a);
    parts_members(join, seq![MemberAction::StorePeers], a);
    parts_members(join, Seq::empty(), a);
    one_member(MemberAction::Remove(id), a);
    one_member(MemberAction::Add(id), a);
    one_member(MemberAction::MarkLeaving(id), a);
    let joined = seq![MemberAction::Add(node.id), MemberAction::StorePeers];
    assert(joined[0] == MemberAction::Add(node.id));
    assert(joined[1] == MemberAction::StorePeers);
}

/// A node that cannot be added is refused if it joins and rejected if it asks to; nothing comes
/// of it otherwise. Just a request to join is accepted, and just an unknown message is not
/// acknowledged.
pub proof fn answers_follow_the_message(msg: ClusterMessage)
    ensures
        member_add_failure(msg) == AddFailure::Refuse <==> msg is Join,
        member_add_failure(msg) == AddFailure::Reject <==> msg is JoinRequest,
        member_add_failure(msg) == AddFailure::Ignore <==> !(msg is Join) && !(msg is JoinRequest),
        member_answer(msg) == MemberAnswer::Accept <==> msg is JoinRequest,
        member_answer(msg) == MemberAnswer::Unsupported <==> msg is Unknown,
        member_answer(msg) == MemberAnswer::Acknowledge <==> !(msg is JoinRequest) && !(
        msg is Unknown),
{
}

// ---------------------------------------------------------------------------
// Rounds.
// ---------------------------------------------------------------------------

/// The time since then is the difference, or none where the clock went back.
pub proof fn time_passes_forwards(then: u64, now: u64)
    ensures
        then <= now ==> then + since(then, now) == now,
        now < then ==> since(then, now) == 0,
{
}

/// A new leader tells every other node, whatever its status, in order.
pub proof fn every_other_node_is_told(nodes: Seq<NodeInfo>, local: NodeId)
    ensures
        other_nodes(nodes, local) == nodes.filter(|n: NodeInfo| n.id != local).map_values(
            |n: NodeInfo| n.id,
        ),
    decreases nodes.len(),
{
    reveal(Seq::filter);
    let other = |n: NodeInfo| n.id != local;
    let id = |n: NodeInfo| n.id;
    if nodes.len() > 0 {
        every_other_node_is_told(nodes.drop_last(), local);
    }
    assert(nodes.filter(other).map_values(id) =~= other_nodes(nodes, local));
}

/// A queue is cut off just where the follower answered with an acknowledgement.
pub proof fn just_an_acknowledged_batch_is_cut_off(reply: Option<&Response>, up_to: u64)
    ensures
        reply is Some && reply->0 is Done ==> cut_off(reply, up_to) == Some(up_to),
        reply is None || !(reply->0 is Done) ==> cut_off(reply, up_to) is None,
{
}

/// A node speaks for a file just if it is named for some chunk of it that is on its disk.
pub proof fn a_node_speaks_for_what_it_has(list: Seq<Loc>, on_disk: Seq<bool>, node: NodeId)
    ensures
        !holds_some(list, on_disk, node) <==> forall|i: int|
            0 <= i < list.len() && (#[trigger] list[i]).nodes.contains(node) ==> !on_disk[i],
{
}

/// What waits for the leader is dropped after a minute, however the leader stands; before that it
/// is sent just while the leader is the same and the file is there.
pub proof fn a_forward_waits_for_a_minute(age: u64, same_leader: bool, file_exists: bool)
    ensures
        head_step(None, same_leader, file_exists) == HeadStep::RoundDone,
        age > 60 * 1000 ==> head_step(Some(age), same_leader, file_exists) == HeadStep::Expire,
        age <= 60 * 1000 && !same_leader ==> head_step(Some(age), same_leader, file_exists)
            == HeadStep::LeaderMoved,
        age <= 60 * 1000 && same_leader && !file_exists ==> head_step(
            Some(age),
            same_leader,
            file_exists,
        ) == HeadStep::DropDeleted,
        age <= 60 * 1000 && same_leader && file_exists ==> head_step(
            Some(age),
            same_leader,
            file_exists,
        ) == HeadStep::Send,
{
}

/// The wait doubles with each failure, up to thirty seconds.
pub proof fn the_wait_doubles_up_to_thirty_seconds(backoff_ms: u64)
    ensures
        backoff_ms <= 15 * 1000 ==> next_backoff(backoff_ms) == backoff_ms + backoff_ms,
        backoff_ms > 15 * 1000 ==> next_backoff(backoff_ms) == 30 * 1000,
{
}

/// Just the entries are kept that are younger than the window, in order; one from the future is.
pub proof fn just_the_younger_entries_are_kept(
    entries: Seq<(FileRec, u64)>,
    now_ms: u64,
    window_ms: u64,
)
    requires
        window_ms > 0,
    ensures
        younger(entries, now_ms, window_ms) == entries.filter(
            |e: (FileRec, u64)| now_ms < e.1 + window_ms,
        ),
    decreases entries.len(),
{
    reveal(Seq::filter);
    if entries.len() > 0 {
        just_the_younger_entries_are_kept(entries.drop_last(), now_ms, window_ms);
    }
}

/// A new leader takes over just those entries of a peer's delete queue whose file its own queue
/// does not name, each once and in order.
pub proof fn just_what_the_queue_lacks_is_taken_over(
    entries: Seq<DeleteQueueEntry>,
    own: Seq<DeleteQueueEntry>,
    k: int,
)
    ensures
        lacking(entries, own).contains(k) <==> 0 <= k < entries.len() && forall|i: int|
            0 <= i < own.len() ==> (#[trigger] own[i]).file_id != entries[k].file_id,
        forall|i: int, j: int|
            0 <= i < j < lacking(entries, own).len() ==> lacking(entries, own)[i] < lacking(
                entries,
                own,
            )[j],
        forall|i: int|
            0 <= i < lacking(entries, own).len() ==> 0 <= #[trigger] lacking(entries, own)[i]
                < entries.len(),
    decreases entries.len(),
{
    if entries.len() > 0 {
        let init = entries.drop_last();
        let last = entries.len() - 1;
        just_what_the_queue_lacks_is_taken_over(init, own, k);
        let l0 = lacking(init, own);
        let l = lacking(entries, own);
        if 0 <= k < init.len() {
            assert(init[k] == entries[k]);
        }
        if l0.contains(k) {
            let p = choose|p: int| 0 <= p < l0.len() && l0[p] == k;
            assert(l[p] == k);
        }
        if l.contains(k) {
            let p = choose|p: int| 0 <= p < l.len() && l[p] == k;
            if p < l0.len() {
                assert(l0[p] == k);
            }
        }
        if k == last && l.len() > l0.len() {
            assert(l[l0.len() as int] == k);
        }
        assert forall|i: int| 0 <= i < l.len() implies 0 <= #[trigger] l[i] < entries.len() by {
            if i < l0.len() {
                assert(l[i] == l0[i]);
            }
        }
        assert forall|i: int, j: int| 0 <= i < j < l.len() implies l[i] < l[j] by {
            assert(l[i] == l0[i]);
            if j < l0.len() {
                assert(l[j] == l0[j]);
            } else {
                assert(0 <= l0[i] < init.len());
            }
        }
    }
}

/// A store counts as fragmented just if it was never compacted or has grown by a fifth or more
/// since.
pub proof fn a_store_is_fragmented_from_a_fifth_on(last_size: u64, current_size: u64)
    ensures
        fragmented(0, current_size),
        last_size > 0 && current_size < last_size ==> !fragmented(last_size, current_size),
        last_size > 0 && current_size >= last_size ==> (fragmented(last_size, current_size) <==> 5
            * (current_size - last_size) >= last_size),
{
}

/// Words occur in a text just where the text is something, the words, and something.
pub proof fn words_occur_within_a_text(needle: Seq<u8>, text: Seq<u8>, a: Seq<u8>, b: Seq<u8>)
    ensures
        text == a + needle + b ==> occurs(needle, text),
        occurs(needle, text) ==> exists|x: Seq<u8>, y: Seq<u8>| text == #[trigger] (x + needle + y),
{
    if text == a + needle + b {
        let k = a.len() as int;
        assert(text.subrange(k, k + needle.len()) =~= needle);
    }
    if occurs(needle, text) {
        let k = choose|k: int|
            #![trigger text.subrange(k, k + needle.len())]
            0 <= k && k + needle.len() <= text.len() && text.subrange(k, k + needle.len())
                == needle;
        let x = text.take(k);
        let y = text.skip(k + needle.len() as int);
        assert(text =~= (x + text.subrange(k, k + needle.len())) + y);
    }
}

/// A failed compaction is tried again just where its message speaks of a transaction or of
/// something in progress, and counts as put off just where it speaks of that and of neither.
pub proof fn the_message_tells_why_compaction_failed(message: Seq<u8>)
    ensures
        ({
            let busy = occurs(
                seq![116u8, 114u8, 97u8, 110u8, 115u8, 97u8, 99u8, 116u8, 105u8, 111u8, 110u8],
                message,
            ) || occurs(
                seq![105u8, 110u8, 32u8, 112u8, 114u8, 111u8, 103u8, 114u8, 101u8, 115u8, 115u8],
                message,
            );
            let put_off = occurs(
                seq![100u8, 101u8, 102u8, 101u8, 114u8, 114u8, 101u8, 100u8],
                message,
            );
            &&& compact_failure(message) == CompactOutcome::Transient <==> busy
            &&& compact_failure(message) == CompactOutcome::Deferred <==> !busy && put_off
            &&& compact_failure(message) == CompactOutcome::Failed <==> !busy && !put_off
        }),
{
}

// ---------------------------------------------------------------------------
// Figures.
// ---------------------------------------------------------------------------

/// Which requests count as reads, as writes and as work on metadata; no others are counted.
pub proof fn requests_are_counted_by_kind(kind: RequestKind)
    ensures
        op_class(kind) == OpClass::Read <==> kind is ReadChunk || kind is ReadChunkRange,
        op_class(kind) == OpClass::Write <==> kind is WriteChunk || kind is WriteFile
            || kind is WriteFileLocalOnly || kind is PatchChunk || kind is MultiPatch
            || kind is AppendFile,
        op_class(kind) == OpClass::Meta <==> kind is GetFileMetadataByPath
            || kind is PutFileMetadata || kind is ListDirectory || kind is DeleteFile
            || kind is RenameFile,
{
}

/// A request adds one to the count of its class and leaves the others.
pub proof fn one_count_goes_up(s: Second, class: OpClass)
    ensures
        class == OpClass::Read && s.reads < u64::MAX ==> counted(s, class).reads == s.reads + 1,
        class != OpClass::Read ==> counted(s, class).reads == s.reads,
        class == OpClass::Write && s.writes < u64::MAX ==> counted(s, class).writes == s.writes + 1,
        class != OpClass::Write ==> counted(s, class).writes == s.writes,
        class == OpClass::Meta && s.meta < u64::MAX ==> counted(s, class).meta == s.meta + 1,
        class != OpClass::Meta ==> counted(s, class).meta == s.meta,
{
}

/// A counter goes up by one, and from the largest number there is to zero.
pub proof fn a_counter_goes_up_by_one(n: u64)
    ensures
        n < u64::MAX ==> bumped(n) == n + 1,
        bumped(u64::MAX) == 0,
{
}

/// A chunk that is not there is told with no bytes, and any other with its size.
pub proof fn absent_chunks_have_no_size(sizes: Seq<Option<u64>>, i: int)
    requires
        0 <= i < sizes.len(),
    ensures
        sizes_or_zero(sizes).len() == sizes.len(),
        sizes[i] is Some ==> sizes_or_zero(sizes)[i] == sizes[i]->0,
        sizes[i] is None ==> sizes_or_zero(sizes)[i] == 0,
{
}

/// The last second is remembered first, and an hour of them at most.
pub proof fn an_hour_of_seconds_is_remembered(recent: Seq<Second>, new: Second)
    requires
        recent.len() <= 3600,
    ensures
        remembered(recent, new)[0] == new,
        recent.len() < 3600 ==> remembered(recent, new).len() == recent.len() + 1,
        recent.len() == 3600 ==> remembered(recent, new).len() == 3600,
        forall|i: int|
            1 <= i < remembered(recent, new).len() ==> #[trigger] remembered(recent, new)[i]
                == recent[i - 1],
{
}

proof fn sums_are_sums(s: Seq<Second>)
    ensures
        sum_reads(s) == s.fold_left(0nat, |a: nat, x: Second| a + x.reads as nat),
        sum_writes(s) == s.fold_left(0nat, |a: nat, x: Second| a + x.writes as nat),
        sum_meta(s) == s.fold_left(0nat, |a: nat, x: Second| a + x.meta as nat),
    decreases s.len(),
{
    if s.len() > 0 {
        sums_are_sums(s.drop_last());
    }
}

proof fn peaks_are_reached(s: Seq<Second>)
    requires
        s.len() > 0,
    ensures
        exists|i: int| 0 <= i < s.len() && (#[trigger] s[i]).reads == peak_reads(s),
        exists|i: int| 0 <= i < s.len() && (#[trigger] s[i]).writes == peak_writes(s),
        exists|i: int| 0 <= i < s.len() && (#[trigger] s[i]).meta == peak_meta(s),
    decreases s.len(),
{
    let init = s.drop_last();
    let last = s.len() - 1;
    assert(s[last] == s.last());
    if init.len() > 0 {
        peaks_are_reached(init);
        let r = choose|i: int| 0 <= i < init.len() && (#[trigger] init[i]).reads == peak_reads(init);
        let w = choose|i: int|
            0 <= i < init.len() && (#[trigger] init[i]).writes == peak_writes(init);
        let m = choose|i: int| 0 <= i < init.len() && (#[trigger] init[i]).meta == peak_meta(init);
        assert(s[r] == init[r] && s[w] == init[w] && s[m] == init[m]);
    } else {
        assert(peak_reads(init) == 0 && peak_writes(init) == 0 && peak_meta(init) == 0);
    }
}

/// The figures that a node gives of itself. The live ones are of the last full second, or of the
/// running one while there is none. No remembered second goes past a peak and some second reaches
/// it; the average, times the seconds, is the sum but for the rounding.
pub proof fn figures_are_of_the_last_hour(
    snap: NodeStatsSnapshot,
    running: Second,
    recent: Seq<Second>,
    uptime_secs: u64,
    i: int,
)
    requires
        is_snapshot(snap, running, recent, uptime_secs),
    ensures
        snap.uptime_secs == uptime_secs,
        recent.len() == 0 ==> snap.reads_live == running.reads && snap.writes_live
            == running.writes && snap.meta_live == running.meta,
        recent.len() > 0 ==> snap.reads_live == recent[0].reads && snap.writes_live
            == recent[0].writes && snap.meta_live == recent[0].meta,
        0 <= i < recent.len() ==> recent[i].reads <= snap.reads_peak_1h && recent[i].writes
            <= snap.writes_peak_1h && recent[i].meta <= snap.meta_peak_1h && recent[i].reads
            + recent[i].writes + recent[i].meta <= snap.total_peak_1h,
        recent.len() > 0 ==> exists|k: int|
            0 <= k < recent.len() && (#[trigger] recent[k]).reads == snap.reads_peak_1h,
        recent.len() > 0 ==> exists|k: int|
            0 <= k < recent.len() && (#[trigger] recent[k]).writes == snap.writes_peak_1h,
        recent.len() > 0 ==> exists|k: int|
            0 <= k < recent.len() && (#[trigger] recent[k]).meta == snap.meta_peak_1h,
        recent.len() > 0 ==> exists|k: int|
            0 <= k < recent.len() && (#[trigger] recent[k]).reads + recent[k].writes
                + recent[k].meta == snap.total_peak_1h,
        recent.len() > 0 ==> snap.reads_avg_1h * recent.len() <= recent.fold_left(
            0nat,
            |a: nat, x: Second| a + x.reads as nat,
        ) < (snap.reads_avg_1h + 1) * recent.len(),
        recent.len() > 0 ==> snap.writes_avg_1h * recent.len() <= recent.fold_left(
            0nat,
            |a: nat, x: Second| a + x.writes as nat,
        ) < (snap.writes_avg_1h + 1) * recent.len(),
        recent.len() > 0 ==> snap.meta_avg_1h * recent.len() <= recent.fold_left(
            0nat,
            |a: nat, x: Second| a + x.meta as nat,
        ) < (snap.meta_avg_1h + 1) * recent.len(),
{
    if recent.len() > 0 {
        crate::stats::peaks_are_peaks(recent);
        peaks_are_reached(recent);
        sums_are_sums(recent);
        average_is_rounded_down(sum_reads(recent), recent.len());
        average_is_rounded_down(sum_writes(recent), recent.len());
        average_is_rounded_down(sum_meta(recent), recent.len());
    }
}

proof fn average_is_rounded_down(sum: nat, n: nat)
    requires
        n > 0,
    ensures
        (sum / n) * n <= sum < (sum / n + 1) * n,
{
    let s = sum as int;
    let m = n as int;
    vstd::arithmetic::div_mod::lemma_fundamental_div_mod(s, m);
    vstd::arithmetic::div_mod::lemma_mod_bound(s, m);
    let q = s / m;
    assert(q * m == m * q) by (nonlinear_arith);
    assert((q + 1) * m == q * m + m) by (nonlinear_arith);
}

/// Each class of requests has a count of its own.
pub proof fn each_class_has_its_own_count(s: RpcClassSnapshot)
    ensures
        s.of(RpcClass::PeerHealing) == s.peer_healing,
        s.of(RpcClass::PeerDeleteOps) == s.peer_delete_ops,
        s.of(RpcClass::PeerFold) == s.peer_fold,
        s.of(RpcClass::PeerGossip) == s.peer_gossip,
        s.of(RpcClass::PeerOther) == s.peer_other,
        s.of(RpcClass::ClientFullPatch) == s.client_full_patch,
        s.of(RpcClass::ClientMultiPatch) == s.client_multi_patch,
        s.of(RpcClass::ClientFold) == s.client_fold,
        s.of(RpcClass::ClientOther) == s.client_other,
        s.of(RpcClass::Admin) == s.admin,
{
}

} // verus!
