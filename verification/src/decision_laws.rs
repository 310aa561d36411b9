//! What each decision of a node comes to, case by case.
use vstd::prelude::*;

use crate::cluster::{figures_are_good, figures_taken, is_leader_of, level_of, DiskLevel};
use crate::locations::{batch_is_lost, belongs_to_something, healed_at_once, served, stand_in};
use crate::loops::{
    after_round, announces_itself, compaction_attempted, compaction_is_due, compaction_is_forced, kept_for_gossip,
    leader_since, pressure_judged, pressure_looked, pushed_to_leader, round_start, sent,
    sweep_is_due, told_around, told_nodes, AfterSend, CompactOutcome, CompactStep, Compaction,
    DisseminationState, PressureStep, RoundStart, SendOutcome,
};
use crate::metadata::{
    answered_sequence, followers_queued_for, goes_to_leader, has_it_already, higher_seq, hops_left,
    is_disseminate_reply, put_forgets_tombstone, put_is_taken, queued_for_leader, stores_fetched,
    takes_pulled, with_held_locations, Lookup,
};
use crate::node_laws::just_the_younger_entries_are_kept;
use crate::patch::{
    content_source, effective_at, entry_is_spent, hints_followed, is_read_ahead, is_recovery,
    patch_base, run_turned_away, says_stale, turned_away, ContentSource, PatchJournalEntry,
    PatchState, RecoveryStep,
};
use crate::protocol::Response;
use crate::record_laws::peers_are_told_by_their_status;
use crate::repair::{repair_is_admitted, repair_may_delete, repaired_location, ReplicaCheck};
use crate::repair_laws::{
    just_failing_replicas_are_corrupt, just_online_nodes_are_counted,
    taking_nodes_out_leaves_the_others,
};
use crate::repair_run::told_to_delete;
use crate::report_laws::filter_members;
use crate::requests::{active_since, file_to_pull, mtime_kept, pushed_for};
use crate::server::{forwards_after, patches_after, serves, ServerState};
use crate::state_laws::not_of_is_the_others;
use crate::storage::young_age;
use crate::types::{ChunkId, FileId, FileRec, Loc, NodeId, NodeInfo, NodeStatus};
use crate::write_path::{
    append_is_written, can_append, checksum_fits, is_written, left_behind, missing_after, part_of,
    recorded_here, tail_chunk, waited_for,
};

verus! {

// ---------------------------------------------------------------------------
// Connections, leadership and rounds.
// ---------------------------------------------------------------------------

/// While no connection slot is free the time runs from the first look that found none. After five
/// minutes the node restarts, whether or not it has stepped down; after half a minute the
/// connections are looked into, unless it has.
pub proof fn full_slots_are_borne_for_five_minutes(
    full_since: Option<u64>,
    stepped_down: bool,
    now_secs: u64,
)
    ensures
        ({
            let (at, down, step) = pressure_looked(full_since, stepped_down, 0, now_secs);
            &&& full_since is Some ==> at == full_since
            &&& full_since is None ==> at == Some(now_secs)
            &&& down == stepped_down
            &&& full_since is None ==> step == PressureStep::Nothing
            &&& full_since is Some && now_secs - full_since->0 >= 300 ==> step
                == PressureStep::Restart
            &&& full_since is Some && 30 <= now_secs - full_since->0 < 300 && !stepped_down
                ==> step == PressureStep::CountIdle
            &&& full_since is Some && now_secs - full_since->0 < 300 && stepped_down ==> step
                == PressureStep::Nothing
            &&& full_since is Some && now_secs - full_since->0 < 30 ==> step
                == PressureStep::Nothing
        }),
{
}

/// A free slot stops the time. A node that stepped down recovers once more than half of its
/// hundred and twenty-eight slots are free.
pub proof fn a_node_recovers_with_half_its_slots(
    full_since: Option<u64>,
    stepped_down: bool,
    available: usize,
    now_secs: u64,
)
    requires
        available > 0,
    ensures
        ({
            let (at, down, step) = pressure_looked(full_since, stepped_down, available, now_secs);
            &&& at is None
            &&& stepped_down && available > 64 ==> !down && step == PressureStep::Recover
            &&& stepped_down && available <= 64 ==> down && step == PressureStep::Nothing
            &&& !stepped_down ==> !down && step == PressureStep::Nothing
        }),
{
}

/// A node steps down just where fewer than half of its connections only wait to be closed.
pub proof fn real_load_makes_a_node_step_down(stepped_down: bool, idle: usize)
    ensures
        idle < 64 ==> pressure_judged(stepped_down, idle) == (true, PressureStep::StepDown),
        idle >= 64 ==> pressure_judged(stepped_down, idle) == (
            stepped_down,
            PressureStep::Nothing,
        ),
{
}

/// After a round a node knows whether it led in it. A leader that never caught up, or five minutes
/// ago, has caught up now.
pub proof fn a_round_notes_who_leads(d: DisseminationState, is_leader: bool, now_secs: u64)
    ensures
        after_round(d, is_leader, now_secs).led == is_leader,
        !is_leader ==> after_round(d, is_leader, now_secs).caught_up_secs == d.caught_up_secs,
        is_leader && d.caught_up_secs is None ==> after_round(
            d,
            is_leader,
            now_secs,
        ).caught_up_secs == Some(now_secs),
        is_leader && d.caught_up_secs is Some && now_secs - d.caught_up_secs->0 >= 300
            ==> after_round(d, is_leader, now_secs).caught_up_secs == Some(now_secs),
        is_leader && d.caught_up_secs is Some && now_secs - d.caught_up_secs->0 < 300
            ==> after_round(d, is_leader, now_secs).caught_up_secs == d.caught_up_secs,
{
}

/// A leader that led before, as far as is known, leads since then; any other leads since now.
pub proof fn a_restarted_leader_carries_on(
    prev_leader: Option<NodeId>,
    prev_since: u64,
    local: NodeId,
    now_secs: u64,
)
    ensures
        leader_since(Some(local), Some(prev_since), local, now_secs) == prev_since,
        leader_since(prev_leader, None, local, now_secs) == now_secs,
        prev_leader != Some(local) ==> leader_since(
            prev_leader,
            Some(prev_since),
            local,
            now_secs,
        ) == now_secs,
{
}

/// Records are pushed to a leader that is another node, when it changed or a node came back.
pub proof fn a_new_leader_gets_what_is_here(changed: bool, event: bool, known: bool, own: bool)
    ensures
        pushed_to_leader(true, event, true, false),
        pushed_to_leader(changed, true, true, false),
        !pushed_to_leader(false, false, known, own),
        !pushed_to_leader(changed, event, false, own),
        !pushed_to_leader(changed, event, known, true),
{
}

/// A node that has just become the leader stores what it had queued for the leader; otherwise it
/// forwards to a leader that is known and is another node, and skips the round without one.
pub proof fn a_forward_goes_to_the_leader(changed: bool, leads: bool, known: bool, own: bool)
    ensures
        round_start(changed, leads, known, own) == RoundStart::StoreLocally <==> changed && leads,
        round_start(changed, leads, known, own) == RoundStart::Forward <==> !(changed && leads)
            && known && !own,
        round_start(changed, leads, known, own) == RoundStart::Skip <==> !(changed && leads) && (
        !known || own),
{
}

/// What was delivered leaves the queue, and the wait starts again from two seconds. Where the
/// other node does not lead, the round ends. A failure is tried again after the wait, which
/// doubles, up to thirty seconds.
pub proof fn a_forward_is_tried_until_delivered(backoff_ms: u64)
    requires
        backoff_ms <= 30000,
    ensures
        sent(SendOutcome::Delivered, backoff_ms) == (AfterSend::Pop, 2000u64),
        sent(SendOutcome::NotLeader, backoff_ms) == (AfterSend::EndRound, backoff_ms),
        sent(SendOutcome::Failed, backoff_ms).0 == AfterSend::RetryAfter(backoff_ms),
        backoff_ms <= 15000 ==> sent(SendOutcome::Failed, backoff_ms).1 == 2 * backoff_ms,
        backoff_ms > 15000 ==> sent(SendOutcome::Failed, backoff_ms).1 == 30000,
{
}

/// Just the leader sweeps, five minutes after the last sweep.
pub proof fn a_leader_sweeps_every_five_minutes(last_ms: u64, is_leader: bool, now_ms: u64)
    ensures
        sweep_is_due(last_ms, is_leader, now_ms) <==> is_leader && now_ms - last_ms >= 300000,
{
}

/// The writes of the last thirty seconds are told around, oldest first, and those of the last
/// minute are kept.
pub proof fn writes_are_told_for_thirty_seconds(entries: Seq<(FileRec, u64)>, now_ms: u64)
    ensures
        kept_for_gossip(entries, now_ms) == entries.filter(
            |e: (FileRec, u64)| now_ms < e.1 + 60000,
        ),
        told_around(entries, now_ms) == entries.filter(
            |e: (FileRec, u64)| now_ms < e.1 + 30000,
        ).map_values(|e: (FileRec, u64)| e.0),
{
    let kept = |e: (FileRec, u64)| now_ms < e.1 + 60000;
    let told = |e: (FileRec, u64)| now_ms < e.1 + 30000;
    just_the_younger_entries_are_kept(entries, now_ms, 60000);
    assert(kept_for_gossip(entries, now_ms) == entries.filter(kept));
    just_the_younger_entries_are_kept(entries.filter(kept), now_ms, 30000);
    filtering_twice(entries, kept, told);
}

proof fn filtering_twice(
    s: Seq<(FileRec, u64)>,
    p: spec_fn((FileRec, u64)) -> bool,
    q: spec_fn((FileRec, u64)) -> bool,
)
    requires
        forall|e: (FileRec, u64)| #[trigger] q(e) ==> p(e),
    ensures
        s.filter(p).filter(q) == s.filter(q),
    decreases s.len(),
{
    reveal(Seq::filter);
    if s.len() > 0 {
        filtering_twice(s.drop_last(), p, q);
        let f0 = s.drop_last().filter(p);
        if p(s.last()) {
            assert(f0.push(s.last()).drop_last() =~= f0);
        }
    }
}

/// Recent writes are told to every other node that is online, and to the leader even if it is
/// not; never to this node, and to nobody else.
pub proof fn the_leader_is_always_told(
    nodes: Seq<NodeInfo>,
    local: NodeId,
    leader: Option<NodeId>,
    n: NodeId,
)
    ensures
        told_nodes(nodes, local, leader).contains(n) <==> n != local && (leader == Some(n)
            || exists|i: int|
            0 <= i < nodes.len() && (#[trigger] nodes[i]).id == n && nodes[i].status
                == NodeStatus::Online),
{
    online_peer_members(nodes, local, n);
    let on = crate::metadata::online_peers(nodes, local);
    if leader is Some {
        let l = leader->0;
        let more = on.push(l);
        assert(more[on.len() as int] == l);
        if on.contains(n) {
            let k = choose|k: int| 0 <= k < on.len() && on[k] == n;
            assert(more[k] == n);
        }
        if more.contains(n) && n != l {
            let k = choose|k: int| 0 <= k < more.len() && more[k] == n;
            assert(on[k] == n);
        }
        online_peer_members(nodes, local, l);
    }
}

proof fn online_peer_members(nodes: Seq<NodeInfo>, local: NodeId, n: NodeId)
    ensures
        crate::metadata::online_peers(nodes, local).contains(n) <==> n != local && exists|i: int|
            0 <= i < nodes.len() && (#[trigger] nodes[i]).id == n && nodes[i].status
                == NodeStatus::Online,
{
    peers_are_told_by_their_status(nodes, local);
    let on = |x: NodeInfo| x.id != local && x.status == NodeStatus::Online;
    let id = |x: NodeInfo| x.id;
    let f = nodes.filter(on);
    let m = f.map_values(id);
    assert(m == crate::metadata::online_peers(nodes, local));
    if m.contains(n) {
        let k = choose|k: int| 0 <= k < m.len() && m[k] == n;
        filter_members(nodes, on, f[k]);
        assert(f.contains(f[k]));
        let i = choose|i: int| 0 <= i < nodes.len() && nodes[i] == f[k];
        assert(nodes[i].id == n);
    }
    if n != local && exists|i: int|
        0 <= i < nodes.len() && (#[trigger] nodes[i]).id == n && nodes[i].status
            == NodeStatus::Online {
        let i = choose|i: int|
            0 <= i < nodes.len() && (#[trigger] nodes[i]).id == n && nodes[i].status
                == NodeStatus::Online;
        filter_members(nodes, on, nodes[i]);
        assert(nodes.contains(nodes[i]));
        let k = choose|k: int| 0 <= k < f.len() && f[k] == nodes[i];
        assert(m[k] == n);
    }
}

/// The store is compacted if it never was, if it has grown by a fifth since, or half an hour
/// after it last was.
pub proof fn a_store_is_compacted_every_half_hour(c: Compaction, size: u64, now_secs: u64)
    ensures
        c.last_size == 0 || c.last_time is None ==> compaction_is_due(c, size, now_secs),
        c.last_size > 0 && c.last_time is Some ==> (compaction_is_due(c, size, now_secs) <==> 5
            * size >= 6 * c.last_size || now_secs - c.last_time->0 >= 1800),
{
}

/// A compaction that worked sets the size and the time anew; one that was put off counts from the
/// first time; nothing else leaves a mark. Just one that a transaction was in the way of is tried
/// again, three times in all.
pub proof fn a_compaction_is_tried_three_times(
    c: Compaction,
    size: u64,
    attempt: u8,
    now_secs: u64,
)
    requires
        attempt < 3,
    ensures
        ({
            let (after, step) = compaction_attempted(
                c,
                CompactOutcome::Compacted(size),
                attempt,
                now_secs,
            );
            &&& after.last_size == size
            &&& after.last_time == Some(now_secs)
            &&& after.deferred_since is None
            &&& step == CompactStep::RoundDone
        }),
        ({
            let (after, step) = compaction_attempted(
                c,
                CompactOutcome::Deferred,
                attempt,
                now_secs,
            );
            &&& after.last_size == c.last_size
            &&& after.last_time == c.last_time
            &&& c.deferred_since is Some ==> after.deferred_since == c.deferred_since
            &&& c.deferred_since is None ==> after.deferred_since == Some(now_secs)
            &&& step == CompactStep::RoundDone
        }),
        compaction_attempted(c, CompactOutcome::Failed, attempt, now_secs) == (
            c,
            CompactStep::RoundDone,
        ),
        compaction_attempted(c, CompactOutcome::Transient, attempt, now_secs).0 == c,
        attempt < 2 ==> compaction_attempted(c, CompactOutcome::Transient, attempt, now_secs).1
            == CompactStep::TryAgain,
        attempt == 2 ==> compaction_attempted(c, CompactOutcome::Transient, attempt, now_secs).1
            == CompactStep::RoundDone,
{
}

/// A compaction is forced five minutes after it was first put off, if the store had grown by a
/// fifth or was never compacted.
pub proof fn a_compaction_is_forced_after_five_minutes(
    c: Compaction,
    baseline: u64,
    size: u64,
    now_secs: u64,
)
    ensures
        compaction_is_forced(c, baseline, size, now_secs) <==> c.deferred_since is Some && now_secs
            - c.deferred_since->0 >= 300 && (baseline == 0 || 5 * size >= 6 * baseline),
{
}

// ---------------------------------------------------------------------------
// Records.
// ---------------------------------------------------------------------------

/// The higher write sequence is kept, and a record is of a newer session just if its own is the
/// higher one.
pub proof fn the_higher_sequence_is_kept(stored: u64, incoming: u64)
    ensures
        stored <= higher_seq(stored, incoming).0,
        incoming <= higher_seq(stored, incoming).0,
        higher_seq(stored, incoming).0 == stored || higher_seq(stored, incoming).0 == incoming,
        higher_seq(stored, incoming).1 <==> stored < incoming,
{
}

/// A leader answers with the sequence that it issued, any other node with the one it received;
/// none counts as zero.
pub proof fn a_leader_answers_with_what_it_issued(issued: Option<u64>, received: Option<u64>)
    ensures
        issued is Some ==> answered_sequence(true, issued, received) == issued->0,
        issued is None ==> answered_sequence(true, issued, received) == 0,
        received is Some ==> answered_sequence(false, issued, received) == received->0,
        received is None ==> answered_sequence(false, issued, received) == 0,
{
}

/// A fetched record is stored if nothing is held of its file, and over an older one. One pulled
/// from the leader is taken over an older one, and over none just if it has a write sequence.
pub proof fn just_newer_records_are_stored(held: u64, incoming: u64)
    ensures
        stores_fetched(None, incoming),
        stores_fetched(Some(held), incoming) <==> held < incoming,
        takes_pulled(None, incoming) <==> 0 < incoming,
        takes_pulled(Some(held), incoming) <==> held < incoming,
{
}

/// Just the leader takes a put, of a file that was not deleted in the last thirty seconds; it
/// forgets a tombstone that is older.
pub proof fn a_put_revives_no_deleted_file(is_leader: bool, age_ms: u64)
    ensures
        put_is_taken(is_leader, None) <==> is_leader,
        put_is_taken(is_leader, Some(age_ms)) <==> is_leader && age_ms >= 30000,
        put_forgets_tombstone(Some(age_ms)) <==> age_ms >= 30000,
        !put_forgets_tombstone(None),
{
}

/// Each hop costs one, and what has none left travels no further.
pub proof fn each_hop_costs_one(ttl: u8)
    ensures
        ttl == 0 <==> hops_left(ttl) is None,
        ttl > 0 ==> hops_left(ttl)->0 + 1 == ttl,
{
}

/// A replicated record is queued for the leader where it can still travel and the leader is, as
/// far as is known, another node.
pub proof fn a_record_reaches_the_leader(ttl: u8, is_leader: bool, leader_is_self: bool)
    ensures
        queued_for_leader(ttl, is_leader, leader_is_self) <==> !(ttl == 0 || is_leader
            || leader_is_self),
{
}

/// A leader queues a record with a write sequence or a location for every other node that is not
/// online, and for no other.
pub proof fn absent_followers_are_queued_for(
    rec: FileRec,
    is_leader: bool,
    nodes: Seq<NodeInfo>,
    local: NodeId,
)
    ensures
        is_leader && (rec.write_seq > 0 || rec.chunk_locations.len() > 0) ==> followers_queued_for(
            rec,
            is_leader,
            nodes,
            local,
        ) == nodes.filter(
            |n: NodeInfo| n.id != local && n.status != NodeStatus::Online,
        ).map_values(|n: NodeInfo| n.id),
        !is_leader || (rec.write_seq == 0 && rec.chunk_locations.len() == 0)
            ==> followers_queued_for(rec, is_leader, nodes, local).len() == 0,
{
    peers_are_told_by_their_status(nodes, local);
}

/// A record is told with the locations of the chunk map where that has an entry, and is otherwise
/// told as it is.
pub proof fn records_are_told_with_live_locations(rec: FileRec, held: Seq<Loc>)
    ensures
        with_held_locations(rec, None) == rec,
        with_held_locations(rec, Some(held)).chunk_locations == held,
        with_held_locations(rec, Some(held)) == (FileRec { chunk_locations: held, ..rec }),
{
}

/// A client gets a record unless it has one with as high a write sequence.
pub proof fn a_client_gets_what_is_newer(write_seq: u64, since: u64)
    ensures
        !has_it_already(write_seq, None),
        has_it_already(write_seq, Some(since)) <==> !(since < write_seq),
{
}

/// A node that does not lead asks the leader for a file it does not know, if there is one.
pub proof fn a_follower_asks_the_leader(known: bool)
    ensures
        goes_to_leader(false, true),
        !goes_to_leader(true, known),
        !goes_to_leader(false, false),
{
}

/// A batch that was stored is acknowledged, and a sequence other than zero noted; one that was not
/// is refused as a whole, and notes nothing.
pub proof fn just_a_stored_batch_moves_the_sequence(
    r: (Response, Option<u64>),
    failure: Option<String>,
    up_to: u64,
)
    requires
        is_disseminate_reply(r, failure, up_to),
    ensures
        failure is Some ==> r.1 is None && r.0 is Error,
        failure is None ==> r.0.acknowledges(),
        failure is None && up_to > 0 ==> r.1 == Some(up_to),
        failure is None && up_to == 0 ==> r.1 is None,
{
}

// ---------------------------------------------------------------------------
// Chunks and where they are.
// ---------------------------------------------------------------------------

/// A chunk with too few nodes is healed at once, unless it is a patch token.
pub proof fn too_few_nodes_call_for_healing(l: Loc, rf: usize)
    ensures
        !healed_at_once(l, true, rf),
        healed_at_once(l, false, rf) <==> l.nodes.len() < rf,
{
}

/// A report with a file is live as long as the file, and one without as long as something refers
/// to its chunk.
pub proof fn a_report_lives_as_long_as_its_file(l: Loc, file_exists: bool, referred: bool)
    ensures
        l.file_id is Some ==> belongs_to_something(l, file_exists, referred) == file_exists,
        l.file_id is None ==> belongs_to_something(l, file_exists, referred) == referred,
{
}

/// A chunk is served just if it is on disk and was not marked as deleted.
pub proof fn marked_chunks_are_not_served(
    on_disk: Seq<bool>,
    tombstoned: Seq<bool>,
    i: int,
    s: ServerState,
    chunk: ChunkId,
    there: bool,
)
    requires
        0 <= i < on_disk.len(),
    ensures
        served(on_disk, tombstoned).len() == on_disk.len(),
        !served(on_disk, tombstoned)[i] <==> !on_disk[i] || tombstoned[i],
        !serves(s, chunk, there) <==> !there || s.chunk_tombstones.contains(chunk.hash),
{
}

/// A stored record stands in for an entry of the chunk map if it has locations, with those and
/// with its own write sequence.
pub proof fn a_record_stands_in_with_its_locations(rec: FileRec)
    ensures
        stand_in(None) is None,
        stand_in(Some(rec)) is None <==> rec.chunk_locations.len() == 0,
        stand_in(Some(rec)) is Some ==> stand_in(Some(rec))->0 == (
            rec.chunk_locations,
            rec.write_seq,
        ),
{
}

/// The nodes that a write waits for are the first two of those chosen, or as many as replicas are
/// kept where that is less, and all others are left to the background.
pub proof fn the_first_nodes_are_waited_for(targets: Seq<NodeId>, rf: usize)
    ensures
        waited_for(targets, rf) + left_behind(targets, rf) == targets,
        rf >= 2 && targets.len() >= 2 ==> waited_for(targets, rf).len() == 2,
        rf < 2 && targets.len() >= 1 ==> waited_for(targets, rf).len() == rf,
        targets.len() < 2 && targets.len() <= rf ==> waited_for(targets, rf) == targets,
{
    assert(waited_for(targets, rf) + left_behind(targets, rf) =~= targets);
    if targets.len() < 2 && targets.len() <= rf {
        assert(waited_for(targets, rf) =~= targets);
    }
}

/// A chunk counts as written just if some node was chosen for it and all have it that the write
/// waits for. An append wants two nodes, or as many as replicas are kept where that is less,
/// however few were chosen.
pub proof fn a_chunk_is_written_on_its_quorum(targets: nat, reached: usize, rf: usize)
    ensures
        !is_written(0, reached, rf),
        targets >= 2 && rf >= 2 ==> (is_written(targets, reached, rf) <==> reached >= 2),
        targets == 1 && rf >= 1 ==> (is_written(targets, reached, rf) <==> reached >= 1),
        targets >= 1 && rf == 1 ==> (is_written(targets, reached, rf) <==> reached >= 1),
        !append_is_written(0, reached as nat, rf),
        targets >= 1 && rf >= 2 ==> (append_is_written(targets, reached as nat, rf) <==> reached
            >= 2),
        targets >= 1 && rf < 2 ==> (append_is_written(targets, reached as nat, rf) <==> reached
            >= rf),
{
}

/// A file can be appended to just where it ends, and if it ends within a chunk just if that chunk
/// is known, which is then taken up.
pub proof fn an_append_begins_where_the_file_ends(rec: FileRec, expected: u64, chunk_size: u64)
    requires
        chunk_size > 0,
    ensures
        can_append(rec, expected, chunk_size) ==> expected == rec.size,
        expected == rec.size && rec.chunk_locations.len() > 0 ==> can_append(
            rec,
            expected,
            chunk_size,
        ),
        expected == rec.size && rec.chunk_locations.len() == 0 ==> (can_append(
            rec,
            expected,
            chunk_size,
        ) <==> rec.size as int % chunk_size as int == 0),
        tail_chunk(rec, chunk_size) is None <==> rec.size as int % chunk_size as int == 0,
        tail_chunk(rec, chunk_size) is Some ==> tail_chunk(rec, chunk_size)->0
            == rec.chunk_locations.last().chunk_id,
{
}

/// A node that wrote a chunk adds itself behind the nodes of the record, unless it is named there
/// or enough others are; nothing else of the record changes. Without a record it makes one, of
/// itself alone, with the time.
pub proof fn a_writing_node_adds_itself(
    held: Loc,
    chunk: ChunkId,
    size: usize,
    local: NodeId,
    rf: usize,
    now_ms: u64,
)
    ensures
        recorded_here(Some(held), chunk, size, local, rf, now_ms) is Some
            <==> !held.nodes.contains(local) && held.nodes.len() < rf,
        recorded_here(Some(held), chunk, size, local, rf, now_ms) is Some ==> recorded_here(
            Some(held),
            chunk,
            size,
            local,
            rf,
            now_ms,
        )->0 == (Loc { nodes: held.nodes.push(local), ..held }),
        recorded_here(None, chunk, size, local, rf, now_ms) is Some <==> rf > 0,
        rf > 0 ==> {
            let l = recorded_here(None, chunk, size, local, rf, now_ms)->0;
            &&& l.chunk_id == chunk
            &&& l.nodes == seq![local]
            &&& l.size == size
            &&& l.checksum == chunk.hash
            &&& l.written_at == Some(now_ms)
            &&& l.file_offset is None
            &&& l.client_write_seq is None
            &&& l.file_id is None
        },
{
    assert(Seq::<NodeId>::empty().push(local) =~= seq![local]);
}

/// A checksum fits just the chunk that is named by it.
pub proof fn a_checksum_is_the_name(a: ChunkId, b: ChunkId)
    ensures
        checksum_fits(a, b.hash) <==> a == b,
{
}

/// A part of composed content has just the bytes asked for that there are.
pub proof fn a_part_has_the_bytes_asked_for(content: Seq<u8>, offset: u64, length: u64, i: int)
    ensures
        offset >= content.len() ==> part_of(content, offset, length).len() == 0,
        offset < content.len() && length <= content.len() - offset ==> part_of(
            content,
            offset,
            length,
        ).len() == length,
        offset < content.len() && length > content.len() - offset ==> part_of(
            content,
            offset,
            length,
        ).len() == content.len() - offset,
        0 <= i < part_of(content, offset, length).len() ==> part_of(content, offset, length)[i]
            == content[offset + i],
{
}

/// A chunk is noted as missing just if some node was asked and all that there were; an earlier
/// note of it, and every note older than five minutes, goes then.
pub proof fn just_what_all_were_asked_for_is_missing(
    entries: Seq<(ChunkId, u64)>,
    chunk: ChunkId,
    tried: nat,
    total: nat,
    now_ms: u64,
)
    ensures
        tried == 0 || tried < total ==> missing_after(entries, chunk, tried, total, now_ms)
            == entries,
        tried > 0 && tried >= total ==> missing_after(entries, chunk, tried, total, now_ms)
            == entries.filter(
            |e: (ChunkId, u64)| e.0 != chunk && now_ms - e.1 < 300000,
        ).push((chunk, now_ms)),
{
    crate::write_laws::old_missing_entries_are_forgotten(entries, chunk, now_ms);
}

// ---------------------------------------------------------------------------
// Figures and levels.
// ---------------------------------------------------------------------------

/// Figures are good for ten seconds.
pub proof fn figures_are_good_for_ten_seconds(taken_at: u64, now_secs: u64)
    ensures
        figures_are_good(taken_at, now_secs) <==> now_secs - taken_at < 10,
{
}

/// New figures: free is what is available, and there are as many chunks as whole four mebibytes
/// in use.
pub proof fn chunks_are_estimated_from_the_space_in_use(total: u64, available: u64, now_secs: u64)
    requires
        available <= total,
        (total - available) / 4194304 <= usize::MAX,
    ensures
        ({
            let c = figures_taken(total, available, now_secs);
            &&& c.total_space == total
            &&& c.free_space == available
            &&& c.available_space == available
            &&& c.taken_at_secs == now_secs
            &&& 4194304 * c.total_chunks <= total - available < 4194304 * (c.total_chunks + 1)
        }),
{
}

/// A disk calls for notice from seventy percent on, for a warning from eighty-five and is critical
/// from ninety-five.
pub proof fn full_disks_call_for_notice(pct: int)
    requires
        0 <= pct <= 100,
    ensures
        level_of(pct) == DiskLevel::Quiet <==> pct < 70,
        level_of(pct) == DiskLevel::Notice(pct as u64) <==> 70 <= pct < 85,
        level_of(pct) == DiskLevel::Warning(pct as u64) <==> 85 <= pct < 95,
        level_of(pct) == DiskLevel::Critical(pct as u64) <==> pct >= 95,
{
}

/// A chunk is young for five minutes.
pub proof fn a_chunk_is_young_for_five_minutes(mtime: u64, now_secs: u64)
    ensures
        young_age(None, now_secs) is None,
        young_age(Some(mtime), now_secs) is Some <==> now_secs - mtime < 300,
        mtime <= now_secs && young_age(Some(mtime), now_secs) is Some ==> mtime + young_age(
            Some(mtime),
            now_secs,
        )->0 == now_secs,
        now_secs < mtime ==> young_age(Some(mtime), now_secs) == Some(0u64),
{
}

/// Just the leader is followed.
pub proof fn just_the_leader_is_followed(sender: NodeId, leader: NodeId)
    ensures
        !is_leader_of(sender, None),
        is_leader_of(sender, Some(leader)) <==> sender == leader,
{
}

// ---------------------------------------------------------------------------
// Requests.
// ---------------------------------------------------------------------------

/// A file's record is pulled just if the client has seen a later write to the file that its chunk
/// was last recorded for than this node has.
pub proof fn just_an_outdated_record_is_pulled(
    s: ServerState,
    chunk: ChunkId,
    seq: u64,
    f: FileId,
)
    ensures
        file_to_pull(s, chunk, None) is None,
        !s.chunks.owner.dom().contains(chunk.hash) ==> file_to_pull(s, chunk, Some(seq)) is None,
        s.chunks.owner.dom().contains(chunk.hash) && s.chunks.owner[chunk.hash] == f.id ==> (
        file_to_pull(s, chunk, Some(seq)) == Some(f) <==> if s.write_seqs.dom().contains(f.id) {
            s.write_seqs[f.id] < seq
        } else {
            0 < seq
        }) && (file_to_pull(s, chunk, Some(seq)) is Some ==> file_to_pull(s, chunk, Some(seq))
            == Some(f)),
{
}

/// A client's write counts as activity of the cluster; work in the background changes nothing.
pub proof fn just_clients_keep_the_cluster_active(s: ServerState, now_ms: u64)
    ensures
        active_since(s, true, now_ms) == s,
        active_since(s, false, now_ms).last_write_ms == now_ms,
        active_since(s, false, now_ms) == (ServerState { last_write_ms: now_ms, ..s }),
{
}

/// A replicated chunk gets the time of its first write just if it was written.
pub proof fn a_written_replica_keeps_its_time(written: Response, at: Option<u64>)
    ensures
        written is Done ==> mtime_kept(written, at) == at,
        !(written is Done) ==> mtime_kept(written, at) is None,
{
}

/// What a name of a patch stands for: the chunk that a consolidated token was made into, the chunk
/// itself where nothing is recorded of it, and nothing while the patch is pending or its state
/// cannot be read. Outside of patches a name stands for its chunk, whatever is recorded.
pub proof fn a_token_stands_for_its_chunk(chunk: ChunkId, c: ChunkId, d: ChunkId, why: String)
    ensures
        patch_base(chunk, Ok(Some(PatchState::Folded(c)))) == Some(c),
        patch_base(chunk, Ok(None)) == Some(chunk),
        patch_base(
            chunk,
            Ok(Some(PatchState::Pending { base_chunk_id: c, delta_chunk_id: d })),
        ) is None,
        patch_base(chunk, Err(why)) is None,
        pushed_for(chunk, true, Ok(Some(PatchState::Folded(c)))) == Some(c),
        pushed_for(chunk, true, Ok(None)) == Some(chunk),
        pushed_for(
            chunk,
            true,
            Ok(Some(PatchState::Pending { base_chunk_id: c, delta_chunk_id: d })),
        ) is None,
        pushed_for(chunk, true, Err(why)) is None,
        pushed_for(chunk, false, Ok(Some(PatchState::Folded(c)))) == Some(chunk),
        pushed_for(chunk, false, Err(why)) == Some(chunk),
{
}

/// The content of a chunk outside of patches, or of which nothing is recorded, is its own; that of
/// a consolidated token is the new chunk's; that of a pending one is composed.
pub proof fn pending_content_is_composed(c: ChunkId, d: ChunkId, state: Option<PatchState>)
    ensures
        content_source(false, state) == ContentSource::Direct,
        content_source(true, None) == ContentSource::Direct,
        content_source(true, Some(PatchState::Folded(c))) == ContentSource::Redirect(c),
        content_source(
            true,
            Some(PatchState::Pending { base_chunk_id: c, delta_chunk_id: d }),
        ) == (ContentSource::Compose { base_chunk_id: c, delta_chunk_id: d }),
{
}

/// A patch is turned away just if the map holds another chunk for its slot, which the claimed one
/// was not consolidated into. A run of patches is turned away just if, besides, the chunk that
/// the map holds is on disk. The client is told of that chunk and its nodes.
pub proof fn outdated_patches_are_turned_away(
    current: Loc,
    claimed: ChunkId,
    state: Option<PatchState>,
    on_disk: bool,
    r: Response,
)
    ensures
        !turned_away(None, claimed, state),
        turned_away(Some(current), claimed, state) <==> current.chunk_id != claimed && !(state
            is Some && state->0 is Folded && state->0->Folded_0 == current.chunk_id),
        run_turned_away(Some(current), claimed, state, on_disk) <==> on_disk && turned_away(
            Some(current),
            claimed,
            state,
        ),
        !run_turned_away(None, claimed, state, on_disk),
        says_stale(r, current) ==> r is ChunkStale && r->ChunkStale_current_chunk_id
            == current.chunk_id && r->ChunkStale_current_nodes@ == current.nodes,
{
}

/// A rewrite took effect now just if it gave the content another name.
pub proof fn just_a_change_takes_effect(old_chunk: ChunkId, new_chunk: ChunkId, now_ms: u64)
    ensures
        old_chunk == new_chunk ==> effective_at(old_chunk, new_chunk, now_ms) is None,
        old_chunk != new_chunk ==> effective_at(old_chunk, new_chunk, now_ms) == Some(now_ms),
{
}

/// The first two hints are followed. A chunk is read ahead unless somebody reads or writes it, it
/// was patched just now, its bytes are at hand, or there is no room.
pub proof fn two_hints_are_followed(
    hints: Seq<ChunkId>,
    in_flight: bool,
    written: bool,
    patched: bool,
    at_hand: bool,
    room: bool,
)
    ensures
        hints.len() <= 2 ==> hints_followed(hints) == hints,
        hints.len() > 2 ==> hints_followed(hints) == seq![hints[0], hints[1]],
        !is_read_ahead(in_flight, written, patched, at_hand, room) <==> in_flight || written
            || patched || at_hand || !room,
{
    if hints.len() > 2 {
        assert(hints_followed(hints) =~= seq![hints[0], hints[1]]);
    }
}

/// A journal entry is written back just if the old chunk is there, last patch first, and cut to
/// its old length. It is cleared unless there was something to write back and that failed.
pub proof fn a_journal_entry_is_written_back(
    step: RecoveryStep,
    entry: PatchJournalEntry,
    old_exists: bool,
    i: int,
)
    requires
        is_recovery(step, entry, old_exists),
    ensures
        step.old_chunk_id == entry.old_chunk_id,
        step.cut_to == entry.old_len,
        step.restore is Some <==> old_exists,
        step.restore is Some ==> (step.restore->0)@.len() == entry.patches@.len(),
        step.restore is Some && 0 <= i < entry.patches@.len() ==> (step.restore->0)@[i].0
            == entry.patches@[entry.patches@.len() - 1 - i].0 && (step.restore->0)@[i].1@
            == entry.patches@[entry.patches@.len() - 1 - i].1@,
        entry_is_spent(false, true),
        entry_is_spent(false, false),
        entry_is_spent(true, true),
        !entry_is_spent(true, false),
{
    if step.restore is Some {
        let writes = crate::delta::patch_list((step.restore->0)@);
        let back = crate::delta::patch_list(entry.patches@).reverse();
        assert(writes == back);
        assert(writes.len() == (step.restore->0)@.len());
        if 0 <= i < entry.patches@.len() {
            assert(writes[i] == back[i]);
            assert(back[i] == crate::delta::patch_list(entry.patches@)[entry.patches@.len() - 1
                - i]);
        }
    }
}

// ---------------------------------------------------------------------------
// Repairs.
// ---------------------------------------------------------------------------

/// A repair is admitted just on the leader, of a file that was found, with a healer, and while at
/// most one node is not online. It may delete if that is forced, or once the leader has led for
/// the grace period.
pub proof fn a_repair_waits_for_the_cluster(
    is_leader: bool,
    lookup: Lookup,
    healer: bool,
    nodes: Seq<NodeInfo>,
    force: bool,
    since: u64,
    grace: u64,
)
    ensures
        repair_is_admitted(is_leader, lookup, healer, nodes) <==> is_leader && lookup is Found
            && healer && nodes.filter(|n: NodeInfo| n.status == NodeStatus::Online).len() + 1
            >= nodes.len(),
        repair_may_delete(true, Some(since), grace),
        repair_may_delete(force, None, grace),
        repair_may_delete(false, Some(since), grace) <==> grace <= since,
{
    just_online_nodes_are_counted(nodes);
}

/// After a repair the record of a chunk names just the nodes that were not found to hold it
/// corrupt, with a new time and no client write sequence. It is left alone where nothing may be
/// deleted or nothing was found corrupt.
pub proof fn a_repaired_record_names_good_replicas(
    live: Loc,
    checks: Seq<ReplicaCheck>,
    destructive: bool,
    now_ms: u64,
    n: NodeId,
)
    ensures
        repaired_location(live, checks, destructive, now_ms) is Some <==> destructive && exists|
            i: int,
        |
            0 <= i < checks.len() && (#[trigger] checks[i]).found && !checks[i].valid,
        repaired_location(live, checks, destructive, now_ms) is Some ==> {
            let l = repaired_location(live, checks, destructive, now_ms)->0;
            &&& l.nodes.contains(n) <==> live.nodes.contains(n) && forall|i: int|
                0 <= i < checks.len() && (#[trigger] checks[i]).node == n && checks[i].found
                    ==> checks[i].valid
            &&& l.written_at == Some(now_ms)
            &&& l.client_write_seq is None
            &&& l == (Loc {
                nodes: l.nodes,
                written_at: l.written_at,
                client_write_seq: l.client_write_seq,
                ..live
            })
        },
        destructive ==> (told_to_delete(checks, destructive).contains(n) <==> exists|i: int|
            0 <= i < checks.len() && (#[trigger] checks[i]).node == n && checks[i].found
                && !checks[i].valid),
        !destructive ==> told_to_delete(checks, destructive).len() == 0,
{
    corrupt_members(checks, n);
    let bad = crate::repair::corrupt(checks);
    taking_nodes_out_leaves_the_others(live.nodes, bad);
    let good = |x: NodeId| !bad.contains(x);
    filter_members(live.nodes, good, n);
    assert(crate::repair::without_nodes(live.nodes, bad) == live.nodes.filter(good));
    if bad.len() > 0 {
        corrupt_members(checks, bad[0]);
        assert(bad.contains(bad[0]));
        let i = choose|i: int|
            0 <= i < checks.len() && (#[trigger] checks[i]).node == bad[0] && checks[i].found
                && !checks[i].valid;
        assert(checks[i].found && !checks[i].valid);
    }
    if exists|i: int| 0 <= i < checks.len() && (#[trigger] checks[i]).found && !checks[i].valid {
        let i = choose|i: int|
            0 <= i < checks.len() && (#[trigger] checks[i]).found && !checks[i].valid;
        corrupt_members(checks, checks[i].node);
        assert(bad.contains(checks[i].node));
    }
}

proof fn corrupt_members(checks: Seq<ReplicaCheck>, n: NodeId)
    ensures
        crate::repair::corrupt(checks).contains(n) <==> exists|i: int|
            0 <= i < checks.len() && (#[trigger] checks[i]).node == n && checks[i].found
                && !checks[i].valid,
{
    just_failing_replicas_are_corrupt(checks);
    let bad = |c: ReplicaCheck| c.found && !c.valid;
    let node = |c: ReplicaCheck| c.node;
    let f = checks.filter(bad);
    let m = f.map_values(node);
    assert(m == crate::repair::corrupt(checks));
    if m.contains(n) {
        let k = choose|k: int| 0 <= k < m.len() && m[k] == n;
        filter_members(checks, bad, f[k]);
        assert(f.contains(f[k]));
        let i = choose|i: int| 0 <= i < checks.len() && checks[i] == f[k];
        assert(checks[i].node == n);
    }
    if exists|i: int|
        0 <= i < checks.len() && (#[trigger] checks[i]).node == n && checks[i].found
            && !checks[i].valid {
        let i = choose|i: int|
            0 <= i < checks.len() && (#[trigger] checks[i]).node == n && checks[i].found
                && !checks[i].valid;
        filter_members(checks, bad, checks[i]);
        assert(checks.contains(checks[i]));
        let k = choose|k: int| 0 <= k < f.len() && f[k] == checks[i];
        assert(m[k] == n);
    }
}

// ---------------------------------------------------------------------------
// A node's state.
// ---------------------------------------------------------------------------

/// A record that is queued for the leader stands last, in place of every earlier one of its file.
pub proof fn the_last_record_of_a_file_is_forwarded(
    forwards: Seq<(FileRec, u64)>,
    rec: FileRec,
    now_ms: u64,
)
    ensures
        forwards_after(forwards, rec, false, now_ms) == forwards,
        forwards_after(forwards, rec, true, now_ms) == forwards.filter(
            |e: (FileRec, u64)| e.0.id != rec.id,
        ).push((rec, now_ms)),
{
    not_of_is_the_others(forwards, rec.id);
}

/// A recorded patch makes its token and its base part of it, in its slot of its file; the token
/// that it retired is part of nothing any more, unless it is one of them; nothing else changes.
pub proof fn a_patch_tracks_its_token_and_base(
    patches: Map<[u8; 32], (u128, u64)>,
    token: ChunkId,
    base: ChunkId,
    retired: Option<ChunkId>,
    file: FileId,
    chunk_idx: u64,
    h: [u8; 32],
)
    ensures
        ({
            let out = patches_after(patches, token, base, retired, file, chunk_idx);
            &&& out.dom().contains(token.hash) && out[token.hash] == (file.id, chunk_idx)
            &&& out.dom().contains(base.hash) && out[base.hash] == (file.id, chunk_idx)
            &&& retired is Some && retired->0.hash != token.hash && retired->0.hash != base.hash
                ==> !out.dom().contains(retired->0.hash)
            &&& h != token.hash && h != base.hash && (retired is Some ==> h != retired->0.hash)
                ==> (out.dom().contains(h) <==> patches.dom().contains(h)) && (
            patches.dom().contains(h) ==> out[h] == patches[h])
        }),
{
}

/// A batch of reports is lost just if there was something to store and it could not be.
pub proof fn an_empty_batch_is_never_lost(stored: bool, attempted: usize)
    ensures
        !batch_is_lost(stored, 0),
        !batch_is_lost(true, attempted),
        attempted > 0 ==> batch_is_lost(false, attempted),
{
}

/// A node announces itself in the first round in which it leads, and not again until it has not
/// led in between.
pub proof fn a_new_leader_announces_itself(d: DisseminationState, is_leader: bool, now_secs: u64)
    ensures
        announces_itself(d, true) <==> !d.led,
        !announces_itself(d, false),
        !announces_itself(after_round(d, true, now_secs), true),
        announces_itself(after_round(d, false, now_secs), true),
{
}

} // verus!
