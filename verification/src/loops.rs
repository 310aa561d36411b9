//! What the background loops decide.
use crate::metadata::{grave, is_disseminate_reply, online_peers, tombstone, Grave};
use crate::protocol::{DeleteQueueEntry, Response};
use crate::shared_maps::{write_entries, writes_get, writes_insert, writes_new, writes_remove};
use crate::types::{
    locs, recs, ChunkLocation, FileId, FileMetadata, FileRec, Loc, NodeId, NodeInfo,
};
use dashmap::DashMap;
use vstd::prelude::*;

verus! {

/// How much time has passed since `then`; a clock that went back counts as none.
pub open spec fn since(then: u64, now: u64) -> u64 {
    if now >= then {
        (now - then) as u64
    } else {
        0
    }
}

pub(crate) fn since_exec(then: u64, now: u64) -> (r: u64)
    ensures
        r == since(then, now),
{
    if now >= then {
        now - then
    } else {
        0
    }
}

// ---------------------------------------------------------------------------
// Connection pressure.
// ---------------------------------------------------------------------------

/// How many connections a node serves at a time.
pub const MAX_CONNECTIONS: usize = 128;

/// After so many seconds without a free slot the node looks into it.
pub const STEP_DOWN_AFTER_SECS: u64 = 30;

/// After so many seconds without a free slot the node restarts.
pub const RESTART_AFTER_SECS: u64 = 300;

/// What to do about connection pressure.
#[derive(Clone, Copy, Debug, PartialEq, Eq, Structural)]
pub enum PressureStep {
    Nothing,
    /// Count the connections that only wait to be closed, and say how many there are.
    CountIdle,
    /// Announce that this node leads no more.
    StepDown,
    /// Announce that this node is available again.
    Recover,
    /// End the process, to be started afresh.
    Restart,
}

/// Watches whether connection slots run out.
pub struct ConnPressure {
    pub full_since: Option<u64>,
    pub stepped_down: bool,
}

/// What a look at the connection slots leaves: since when none is free, whether the node has
/// stepped down, and what is to be done.
pub open spec fn pressure_looked(
    full_since: Option<u64>,
    stepped_down: bool,
    available: usize,
    now_secs: u64,
) -> (Option<u64>, bool, PressureStep) {
    if available == 0 {
        let start = match full_since {
            Some(t) => t,
            None => now_secs,
        };
        (
            Some(start),
            stepped_down,
            if since(start, now_secs) >= RESTART_AFTER_SECS {
                PressureStep::Restart
            } else if since(start, now_secs) >= STEP_DOWN_AFTER_SECS && !stepped_down {
                PressureStep::CountIdle
            } else {
                PressureStep::Nothing
            },
        )
    } else if stepped_down && available > MAX_CONNECTIONS / 2 {
        (None, false, PressureStep::Recover)
    } else {
        (None, stepped_down, PressureStep::Nothing)
    }
}

/// What a judgement of the connections leaves: whether the node has stepped down, and what is to
/// be done.
pub open spec fn pressure_judged(stepped_down: bool, idle: usize) -> (bool, PressureStep) {
    if idle >= MAX_CONNECTIONS / 2 {
        (stepped_down, PressureStep::Nothing)
    } else {
        (true, PressureStep::StepDown)
    }
}

impl ConnPressure {
    pub fn new() -> (p: ConnPressure)
        ensures
            p.full_since is None,
            !p.stepped_down,
    {
        ConnPressure { full_since: None, stepped_down: false }
    }

    /// Looks at the number of free slots.
    ///
    /// With none free the time runs from the first such look; after five minutes the node is to
    /// restart, and after half a minute the connections are looked into, unless it has stepped
    /// down already. A free slot stops the time, and a node that stepped down recovers once more
    /// than half of the slots are free.
    pub fn look(&mut self, available: usize, now_secs: u64) -> (r: PressureStep)
        requires
            available <= MAX_CONNECTIONS,
        ensures
            available == 0 ==> {
                let start = match old(self).full_since {
                    Some(t) => t,
                    None => now_secs,
                };
                &&& final(self).full_since == Some(start)
                &&& final(self).stepped_down == old(self).stepped_down
                &&& r == (if since(start, now_secs) >= RESTART_AFTER_SECS {
                    PressureStep::Restart
                } else if since(start, now_secs) >= STEP_DOWN_AFTER_SECS && !old(self).stepped_down {
                    PressureStep::CountIdle
                } else {
                    PressureStep::Nothing
                })
            },
            available > 0 ==> {
                &&& final(self).full_since is None
                &&& if old(self).stepped_down && available > MAX_CONNECTIONS / 2 {
                    r == PressureStep::Recover && !final(self).stepped_down
                } else {
                    r == PressureStep::Nothing && final(self).stepped_down == old(self).stepped_down
                }
            },
            (final(self).full_since, final(self).stepped_down, r) == pressure_looked(
                old(self).full_since,
                old(self).stepped_down,
                available,
                now_secs,
            ),
    {
        let in_use: usize = MAX_CONNECTIONS - available;
        if in_use >= MAX_CONNECTIONS {
            let start: u64 = match self.full_since {
                Some(t) => t,
                None => now_secs,
            };
            self.full_since = Some(start);
            let secs_full: u64 = since_exec(start, now_secs);
            if secs_full >= RESTART_AFTER_SECS {
                return PressureStep::Restart;
            }
            if secs_full >= STEP_DOWN_AFTER_SECS && !self.stepped_down {
                return PressureStep::CountIdle;
            }
            PressureStep::Nothing
        } else {
            self.full_since = None;
            if self.stepped_down && available > MAX_CONNECTIONS / 2 {
                self.stepped_down = false;
                return PressureStep::Recover;
            }
            PressureStep::Nothing
        }
    }

    /// Judges the connections. If half of them only wait to be closed, that will pass; otherwise
    /// the load is real and the node steps down.
    pub fn judge(&mut self, idle: usize) -> (r: PressureStep)
        ensures
            final(self).full_since == old(self).full_since,
            idle >= MAX_CONNECTIONS / 2 ==> r == PressureStep::Nothing && final(self).stepped_down
                == old(self).stepped_down,
            idle < MAX_CONNECTIONS / 2 ==> r == PressureStep::StepDown && final(self).stepped_down,
            (final(self).stepped_down, r) == pressure_judged(old(self).stepped_down, idle),
    {
        if idle >= MAX_CONNECTIONS / 2 {
            PressureStep::Nothing
        } else {
            self.stepped_down = true;
            PressureStep::StepDown
        }
    }
}

// ---------------------------------------------------------------------------
// Becoming the leader.
// ---------------------------------------------------------------------------

/// How often the leader catches up with its followers in any case.
pub const CATCHUP_EVERY_SECS: u64 = 300;

/// The dissemination loop: whether this node led in the last round, and when it last caught up
/// with its followers because it was time.
#[derive(Debug)]
pub struct Dissemination {
    led: bool,
    caught_up_secs: Option<u64>,
}

pub ghost struct DisseminationState {
    pub led: bool,
    pub caught_up_secs: Option<u64>,
}

impl View for Dissemination {
    type V = DisseminationState;

    closed spec fn view(&self) -> DisseminationState {
        DisseminationState { led: self.led, caught_up_secs: self.caught_up_secs }
    }
}

impl DisseminationState {
    /// It is time to catch up.
    pub open spec fn is_due(self, now_secs: u64) -> bool {
        match self.caught_up_secs {
            Some(t) => since(t, now_secs) >= CATCHUP_EVERY_SECS,
            None => true,
        }
    }
}

/// The other nodes, online or not, in order.
pub open spec fn other_nodes(nodes: Seq<NodeInfo>, local: NodeId) -> Seq<NodeId>
    decreases nodes.len(),
{
    if nodes.len() == 0 {
        Seq::empty()
    } else {
        let sofar = other_nodes(nodes.drop_last(), local);
        if nodes.last().id != local {
            sofar.push(nodes.last().id)
        } else {
            sofar
        }
    }
}

fn find_other_nodes(nodes: &Vec<NodeInfo>, local: NodeId) -> (r: Vec<NodeId>)
    ensures
        r@ == other_nodes(nodes@, local),
{
    let mut out: Vec<NodeId> = Vec::new();
    let mut i: usize = 0;
    assert(nodes@.take(0) =~= Seq::<NodeInfo>::empty());
    while i < nodes.len()
        invariant
            i <= nodes@.len(),
            out@ == other_nodes(nodes@.take(i as int), local),
        decreases nodes@.len() - i,
    {
        proof {
            assert(nodes@.take(i + 1).drop_last() =~= nodes@.take(i as int));
            assert(nodes@.take(i + 1).last() == nodes@[i as int]);
        }
        if nodes[i].id != local {
            out.push(nodes[i].id);
        }
        i += 1;
    }
    assert(nodes@.take(i as int) =~= nodes@);
    out
}

/// What the leader does in one round.
#[derive(Debug)]
pub struct LeaderRound {
    /// If this node has just become the leader: whom it tells, before it catches up with its
    /// followers.
    pub announce_to: Option<Vec<NodeId>>,
    /// Catch up with the followers because it is time.
    pub periodic_catchup: bool,
    /// The followers that get what is queued for them.
    pub drain_to: Vec<NodeId>,
}

/// What is known of the leadership after a round.
pub open spec fn after_round(
    d: DisseminationState,
    is_leader: bool,
    now_secs: u64,
) -> DisseminationState {
    DisseminationState {
        led: is_leader,
        caught_up_secs: if is_leader && d.is_due(now_secs) {
            Some(now_secs)
        } else {
            d.caught_up_secs
        },
    }
}

/// A node tells the others in a round that it leads.
pub open spec fn announces_itself(d: DisseminationState, is_leader: bool) -> bool {
    is_leader && !d.led
}

impl Dissemination {
    pub fn new() -> (d: Dissemination)
        ensures
            d@ == (DisseminationState { led: false, caught_up_secs: None }),
    {
        Dissemination { led: false, caught_up_secs: None }
    }

    /// Decides on a round. A new leader tells every other node, even one that seems to be down,
    /// so that another leader there steps back. A node that does not lead does nothing.
    pub fn round(&mut self, is_leader: bool, nodes: &Vec<NodeInfo>, local: NodeId, now_secs: u64) -> (r:
        Option<LeaderRound>)
        ensures
            !is_leader ==> r is None && final(self)@ == (DisseminationState {
                led: false,
                ..old(self)@
            }),
            is_leader ==> {
                let due = old(self)@.is_due(now_secs);
                &&& r is Some
                &&& match (r->0).announce_to {
                    Some(told) => !old(self)@.led && told@ == other_nodes(nodes@, local),
                    None => old(self)@.led,
                }
                &&& (r->0).periodic_catchup == due
                &&& (r->0).drain_to@ == online_peers(nodes@, local)
                &&& final(self)@ == (DisseminationState {
                    led: true,
                    caught_up_secs: if due {
                        Some(now_secs)
                    } else {
                        old(self)@.caught_up_secs
                    },
                })
            },
            final(self)@ == after_round(old(self)@, is_leader, now_secs),
            r is Some <==> is_leader,
            r is Some ==> ((r->0).announce_to is Some <==> announces_itself(old(self)@, is_leader)),
    {
        if !is_leader {
            self.led = false;
            return None;
        }
        let announce_to: Option<Vec<NodeId>> = if self.led {
            None
        } else {
            Some(find_other_nodes(nodes, local))
        };
        self.led = true;
        let due: bool = match self.caught_up_secs {
            Some(t) => since_exec(t, now_secs) >= CATCHUP_EVERY_SECS,
            None => true,
        };
        if due {
            self.caught_up_secs = Some(now_secs);
        }
        Some(
            LeaderRound {
                announce_to,
                periodic_catchup: due,
                drain_to: crate::metadata::broadcast_targets(nodes, local),
            },
        )
    }
}

/// Since when a node counts as the leader.
pub open spec fn leader_since(
    prev_leader: Option<NodeId>,
    prev_since: Option<u64>,
    local: NodeId,
    now_secs: u64,
) -> u64 {
    if prev_leader == Some(local) && prev_since is Some {
        prev_since->0
    } else {
        now_secs
    }
}

/// Since when a node that has become the leader counts as the leader. One that led before it was
/// restarted carries on from where it was; a different leader starts afresh.
pub fn resolve_became_leader_epoch(
    prev_leader: Option<NodeId>,
    prev_since: Option<u64>,
    local: NodeId,
    now_secs: u64,
) -> (r: u64)
    ensures
        r == (if prev_leader == Some(local) && prev_since is Some {
            prev_since->0
        } else {
            now_secs
        }),
        r == leader_since(prev_leader, prev_since, local, now_secs),
{
    match (prev_leader, prev_since) {
        (Some(leader), Some(since_secs)) => if leader == local {
            since_secs
        } else {
            now_secs
        },
        _ => now_secs,
    }
}

/// Up to where a follower's queue can be cut off: as far as the batch reached, if the follower
/// acknowledged it. After a refusal or no answer everything is sent again.
pub fn queue_reached(reply: Option<&Response>, up_to_sequence: u64) -> (r: Option<u64>)
    ensures
        r == cut_off(reply, up_to_sequence),
{
    match reply {
        Some(Response::Done { .. }) => Some(up_to_sequence),
        _ => None,
    }
}

/// Where a follower's queue is cut off after a reply.
pub open spec fn cut_off(reply: Option<&Response>, up_to_sequence: u64) -> Option<u64> {
    match reply {
        Some(answer) => if answer is Done {
            Some(up_to_sequence)
        } else {
            None
        },
        None => None,
    }
}

/// What is left of a follower's queue that was cut off at a sequence, or not at all.
pub open spec fn still_queued(queue: Seq<(u64, FileRec)>, cut: Option<u64>) -> Seq<(u64, FileRec)> {
    match cut {
        Some(up_to) => queue.filter(|e: (u64, FileRec)| e.0 > up_to),
        None => queue,
    }
}

/// A batch leaves a follower's queue only once the follower has stored it: where it answers that
/// it could not, and where it does not answer, the whole queue stays and is sent again.
pub proof fn a_refused_batch_stays_queued(
    queue: Seq<(u64, FileRec)>,
    failure: Option<String>,
    answer: (Response, Option<u64>),
    up_to_sequence: u64,
)
    requires
        is_disseminate_reply(answer, failure, up_to_sequence),
    ensures
        failure is Some ==> still_queued(queue, cut_off(Some(&answer.0), up_to_sequence)) == queue,
        failure is None ==> still_queued(queue, cut_off(Some(&answer.0), up_to_sequence))
            == queue.filter(|e: (u64, FileRec)| e.0 > up_to_sequence),
        still_queued(queue, cut_off(None, up_to_sequence)) == queue,
{
}

/// Local records are pushed to the leader.
pub open spec fn pushed_to_leader(
    leader_changed: bool,
    node_event: bool,
    leader_known: bool,
    leader_is_self: bool,
) -> bool {
    (leader_changed || node_event) && leader_known && !leader_is_self
}

/// Whether local records are pushed to the leader: it changed or a node came back, it is known,
/// and it is another node.
pub fn pushes_to_leader(
    leader_changed: bool,
    node_event: bool,
    leader_known: bool,
    leader_is_self: bool,
) -> (r: bool)
    ensures
        r == ((leader_changed || node_event) && leader_known && !leader_is_self),
        r == pushed_to_leader(leader_changed, node_event, leader_known, leader_is_self),
{
    (leader_changed || node_event) && leader_known && !leader_is_self
}

/// A node speaks for a file if it has one of its chunks: it is named as a holder, and the chunk is
/// on its disk.
pub open spec fn holds_some(list: Seq<Loc>, on_disk: Seq<bool>, node: NodeId) -> bool {
    exists|i: int|
        0 <= i < list.len() && (#[trigger] list[i]).nodes.contains(node) && on_disk[i]
}

/// Whether a file's record is pushed to the leader. `on_disk` tells of each location whether its
/// chunk is on disk here.
pub fn holds_some_chunk(list: &Vec<ChunkLocation>, on_disk: &Vec<bool>, node: NodeId) -> (r: bool)
    requires
        on_disk@.len() == list@.len(),
    ensures
        r == holds_some(locs(list@), on_disk@, node),
{
    let mut i: usize = 0;
    while i < list.len()
        invariant
            i <= list@.len(),
            on_disk@.len() == list@.len(),
            forall|j: int|
                0 <= j < i ==> !((#[trigger] locs(list@)[j]).nodes.contains(node) && on_disk@[j]),
        decreases list@.len() - i,
    {
        assert(locs(list@)[i as int] == list@[i as int]@);
        if on_disk[i] && crate::locations::lists_node(&list[i].nodes, node) {
            return true;
        }
        i += 1;
    }
    false
}

/// Whether a location is pushed to the leader: this node is named in it, and has the chunk.
pub fn pushes_location(location: &ChunkLocation, node: NodeId, on_disk: bool) -> (r: bool)
    ensures
        r == (location@.nodes.contains(node) && on_disk),
{
    on_disk && crate::locations::lists_node(&location.nodes, node)
}

// ---------------------------------------------------------------------------
// Forwarding to the leader.
// ---------------------------------------------------------------------------

/// How long a record waits to be forwarded before it is given up.
pub const FORWARD_EXPIRY_MS: u64 = 60000;

/// The first wait after a failed forward, and the longest.
pub const FIRST_BACKOFF_MS: u64 = 2000;

pub const MAX_BACKOFF_MS: u64 = 30000;

/// Records that wait to be forwarded to the leader, with the time at which they came, oldest
/// first. There is at most one for each file.
pub struct ForwardQueue {
    entries: Vec<(FileMetadata, u64)>,
}

pub open spec fn waiting(s: Seq<(FileMetadata, u64)>) -> Seq<(FileRec, u64)> {
    s.map_values(|e: (FileMetadata, u64)| (e.0@, e.1))
}

/// The entries that are not of the file, in order.
pub open spec fn not_of(entries: Seq<(FileRec, u64)>, file: FileId) -> Seq<(FileRec, u64)>
    decreases entries.len(),
{
    if entries.len() == 0 {
        entries
    } else if entries.last().0.id == file {
        not_of(entries.drop_last(), file)
    } else {
        not_of(entries.drop_last(), file).push(entries.last())
    }
}

/// No file has two entries.
pub open spec fn one_per_file(entries: Seq<(FileRec, u64)>) -> bool {
    forall|i: int, j: int|
        0 <= i < j < entries.len() ==> (#[trigger] entries[i]).0.id != (
        #[trigger] entries[j]).0.id
}

proof fn not_of_members(entries: Seq<(FileRec, u64)>, file: FileId)
    ensures
        not_of(entries, file).len() <= entries.len(),
        forall|i: int|
            0 <= i < not_of(entries, file).len() ==> (#[trigger] not_of(entries, file)[i]).0.id
                != file && entries.contains(not_of(entries, file)[i]),
        one_per_file(entries) ==> one_per_file(not_of(entries, file)),
    decreases entries.len(),
{
    if entries.len() > 0 {
        let init = entries.drop_last();
        not_of_members(init, file);
        let n0 = not_of(init, file);
        let n = not_of(entries, file);
        assert forall|i: int| 0 <= i < n.len() implies (#[trigger] n[i]).0.id != file
            && entries.contains(n[i]) by {
            if i < n0.len() {
                assert(n[i] == n0[i]);
                assert(init.contains(n0[i]));
                let k = choose|k: int| 0 <= k < init.len() && init[k] == n0[i];
                assert(entries[k] == n[i]);
            } else {
                assert(entries[entries.len() - 1] == n[i]);
            }
        }
        if one_per_file(entries) {
            assert(one_per_file(init)) by {
                assert forall|i: int, j: int| 0 <= i < j < init.len() implies (
                #[trigger] init[i]).0.id != (#[trigger] init[j]).0.id by {
                    assert(entries[i].0.id != entries[j].0.id);
                }
            }
            assert forall|i: int, j: int| 0 <= i < j < n.len() implies (#[trigger] n[i]).0.id != (
            #[trigger] n[j]).0.id by {
                if j < n0.len() {
                    assert(n0[i].0.id != n0[j].0.id);
                } else {
                    assert(init.contains(n0[i]));
                    let k = choose|k: int| 0 <= k < init.len() && init[k] == n0[i];
                    assert(entries[k].0.id != entries[entries.len() - 1].0.id);
                }
            }
        }
    }
}

impl View for ForwardQueue {
    type V = Seq<(FileRec, u64)>;

    closed spec fn view(&self) -> Seq<(FileRec, u64)> {
        waiting(self.entries@)
    }
}

impl ForwardQueue {
    pub fn new() -> (q: ForwardQueue)
        ensures
            q@.len() == 0,
            one_per_file(q@),
    {
        ForwardQueue { entries: Vec::new() }
    }

    /// Queues a record at the end, in place of any earlier one of its file.
    pub fn enqueue(&mut self, metadata: FileMetadata, now_ms: u64)
        ensures
            final(self)@ == not_of(old(self)@, metadata@.id).push((metadata@, now_ms)),
            one_per_file(old(self)@) ==> one_per_file(final(self)@),
    {
        let ghost before = self@;
        let id: FileId = metadata.id;
        let mut out: Vec<(FileMetadata, u64)> = Vec::new();
        let mut i: usize = 0;
        assert(before.take(0) =~= Seq::<(FileRec, u64)>::empty());
        assert(waiting(out@) =~= Seq::<(FileRec, u64)>::empty());
        while i < self.entries.len()
            invariant
                i <= self.entries@.len(),
                before == waiting(self.entries@),
                waiting(out@) == not_of(before.take(i as int), id),
            decreases self.entries@.len() - i,
        {
            proof {
                assert(before.take(i + 1).drop_last() =~= before.take(i as int));
                assert(before.take(i + 1).last() == (
                    self.entries@[i as int].0@,
                    self.entries@[i as int].1,
                ));
            }
            let ghost o = waiting(out@);
            if self.entries[i].0.id != id {
                out.push((self.entries[i].0.clone(), self.entries[i].1));
                assert(waiting(out@) =~= o.push(before[i as int]));
            }
            i += 1;
        }
        assert(before.take(i as int) =~= before);
        let ghost o = waiting(out@);
        let ghost mv = metadata@;
        out.push((metadata, now_ms));
        assert(waiting(out@) =~= o.push((mv, now_ms)));
        self.entries = out;
        proof {
            not_of_members(before, id);
            let after = self@;
            if one_per_file(before) {
                assert forall|i: int, j: int| 0 <= i < j < after.len() implies (
                #[trigger] after[i]).0.id != (#[trigger] after[j]).0.id by {
                    if j < o.len() {
                        assert(o[i].0.id != o[j].0.id);
                    } else {
                        assert(o[i].0.id != id);
                    }
                }
            }
        }
    }

    /// The oldest entry.
    pub fn front(&self) -> (r: Option<(FileMetadata, u64)>)
        ensures
            match r {
                Some(e) => self@.len() > 0 && self@[0] == (e.0@, e.1),
                None => self@.len() == 0,
            },
    {
        if self.entries.len() == 0 {
            None
        } else {
            assert(self@[0] == (self.entries@[0].0@, self.entries@[0].1));
            Some((self.entries[0].0.clone(), self.entries[0].1))
        }
    }

    /// Takes the oldest entry out.
    pub fn pop_front(&mut self)
        ensures
            final(self)@ == (if old(self)@.len() > 0 {
                old(self)@.drop_first()
            } else {
                old(self)@
            }),
    {
        if self.entries.len() > 0 {
            let ghost before = self@;
            let _ = self.entries.remove(0);
            assert(self@ =~= before.drop_first());
        }
    }
}

/// How a forwarding round starts.
#[derive(Clone, Copy, Debug, PartialEq, Eq, Structural)]
pub enum RoundStart {
    /// This node leads now: store what is queued here.
    StoreLocally,
    /// There is nobody to forward to.
    Skip,
    /// Forward to the leader.
    Forward,
}

/// How a round of forwarding begins.
pub open spec fn round_start(
    leader_changed: bool,
    is_leader: bool,
    leader_known: bool,
    leader_is_self: bool,
) -> RoundStart {
    if leader_changed && is_leader {
        RoundStart::StoreLocally
    } else if leader_known && !leader_is_self {
        RoundStart::Forward
    } else {
        RoundStart::Skip
    }
}

pub fn forward_round(
    leader_changed: bool,
    is_leader: bool,
    leader_known: bool,
    leader_is_self: bool,
) -> (r: RoundStart)
    ensures
        leader_changed && is_leader ==> r == RoundStart::StoreLocally,
        !(leader_changed && is_leader) && leader_known && !leader_is_self ==> r
            == RoundStart::Forward,
        !(leader_changed && is_leader) && (!leader_known || leader_is_self) ==> r
            == RoundStart::Skip,
        r == round_start(leader_changed, is_leader, leader_known, leader_is_self),
{
    if leader_changed && is_leader {
        RoundStart::StoreLocally
    } else if !leader_known || leader_is_self {
        RoundStart::Skip
    } else {
        RoundStart::Forward
    }
}

/// What to do about the oldest entry.
#[derive(Clone, Copy, Debug, PartialEq, Eq, Structural)]
pub enum HeadStep {
    /// Nothing is queued: the round is over.
    RoundDone,
    /// It waited too long: drop it.
    Expire,
    /// The leader changed: the round is over.
    LeaderMoved,
    /// Its file is gone: drop it, so as not to bring the file back.
    DropDeleted,
    Send,
}

pub open spec fn head_step(age_ms: Option<u64>, same_leader: bool, file_exists: bool) -> HeadStep {
    match age_ms {
        None => HeadStep::RoundDone,
        Some(age) => if age > FORWARD_EXPIRY_MS {
            HeadStep::Expire
        } else if !same_leader {
            HeadStep::LeaderMoved
        } else if !file_exists {
            HeadStep::DropDeleted
        } else {
            HeadStep::Send
        },
    }
}

pub fn forward_head(age_ms: Option<u64>, same_leader: bool, file_exists: bool) -> (r: HeadStep)
    ensures
        r == head_step(age_ms, same_leader, file_exists),
{
    match age_ms {
        None => HeadStep::RoundDone,
        Some(age) => if age > FORWARD_EXPIRY_MS {
            HeadStep::Expire
        } else if !same_leader {
            HeadStep::LeaderMoved
        } else if !file_exists {
            HeadStep::DropDeleted
        } else {
            HeadStep::Send
        },
    }
}

/// What came of sending a record to the leader.
#[derive(Clone, Copy, Debug, PartialEq, Eq, Structural)]
pub enum SendOutcome {
    Delivered,
    NotLeader,
    Failed,
}

/// What follows.
#[derive(Clone, Copy, Debug, PartialEq, Eq, Structural)]
pub enum AfterSend {
    /// Drop the entry, and go on with the next.
    Pop,
    /// End the round.
    EndRound,
    /// Wait so long, and try the entry again.
    RetryAfter(u64),
}

/// The wait after the next failure: twice as long, up to a limit.
pub open spec fn next_backoff(backoff_ms: u64) -> u64 {
    if backoff_ms * 2 <= MAX_BACKOFF_MS {
        (backoff_ms * 2) as u64
    } else {
        MAX_BACKOFF_MS
    }
}

/// What follows a forward, and the wait for the next failure.
pub open spec fn sent(outcome: SendOutcome, backoff_ms: u64) -> (AfterSend, u64) {
    match outcome {
        SendOutcome::Delivered => (AfterSend::Pop, FIRST_BACKOFF_MS),
        SendOutcome::NotLeader => (AfterSend::EndRound, backoff_ms),
        SendOutcome::Failed => (AfterSend::RetryAfter(backoff_ms), next_backoff(backoff_ms)),
    }
}

/// What follows a forward, and the wait for the next failure.
pub fn after_forward(outcome: SendOutcome, backoff_ms: u64) -> (r: (AfterSend, u64))
    requires
        backoff_ms <= MAX_BACKOFF_MS,
    ensures
        match outcome {
            SendOutcome::Delivered => r == (AfterSend::Pop, FIRST_BACKOFF_MS),
            SendOutcome::NotLeader => r == (AfterSend::EndRound, backoff_ms),
            SendOutcome::Failed => r == (
                AfterSend::RetryAfter(backoff_ms),
                next_backoff(backoff_ms),
            ),
        },
        r.1 <= MAX_BACKOFF_MS,
        r == sent(outcome, backoff_ms),
{
    match outcome {
        SendOutcome::Delivered => (AfterSend::Pop, FIRST_BACKOFF_MS),
        SendOutcome::NotLeader => (AfterSend::EndRound, backoff_ms),
        SendOutcome::Failed => {
            let next: u64 = if backoff_ms * 2 <= MAX_BACKOFF_MS {
                backoff_ms * 2
            } else {
                MAX_BACKOFF_MS
            };
            (AfterSend::RetryAfter(backoff_ms), next)
        },
    }
}

/// The wait after so many failures in a row.
pub open spec fn backoff_after(failures: nat) -> u64
    decreases failures,
{
    if failures == 0 {
        FIRST_BACKOFF_MS
    } else {
        next_backoff(backoff_after((failures - 1) as nat))
    }
}

/// Waits never shrink while the leader cannot be reached, and never grow past half a minute,
/// where they arrive after four failures.
pub proof fn backoff_grows_to_its_limit(failures: nat)
    ensures
        FIRST_BACKOFF_MS <= backoff_after(failures) <= MAX_BACKOFF_MS,
        backoff_after(failures) <= backoff_after(failures + 1),
        failures >= 4 ==> backoff_after(failures) == MAX_BACKOFF_MS,
    decreases failures,
{
    reveal_with_fuel(backoff_after, 6);
    if failures > 4 {
        backoff_grows_to_its_limit((failures - 1) as nat);
    } else {
        assert(backoff_after(0) == 2000);
        assert(backoff_after(1) == 4000);
        assert(backoff_after(2) == 8000);
        assert(backoff_after(3) == 16000);
        assert(backoff_after(4) == 30000);
        assert(backoff_after(5) == 30000);
    }
}

// ---------------------------------------------------------------------------
// Gossip.
// ---------------------------------------------------------------------------

/// Writes that are not older than this are told around.
pub const GOSSIP_WINDOW_MS: u64 = 30000;

/// How many recent writes are kept.
pub const MAX_RECENT_WRITES: usize = 512;

/// The last write to each file, with the time at which it came.
struct WriteLog {
    writes: DashMap<u128, (FileMetadata, u64)>,
    /// The files, the one written first in front.
    order: Vec<u128>,
}

/// The last write to each file, with the time at which it came, oldest first. The log is out only
/// while it is being worked on.
pub struct RecentWrites {
    log: Option<WriteLog>,
}

/// The entries younger than `window`.
pub open spec fn younger(entries: Seq<(FileRec, u64)>, now_ms: u64, window_ms: u64) -> Seq<
    (FileRec, u64),
>
    decreases entries.len(),
{
    if entries.len() == 0 {
        entries
    } else {
        let sofar = younger(entries.drop_last(), now_ms, window_ms);
        if since(entries.last().1, now_ms) < window_ms {
            sofar.push(entries.last())
        } else {
            sofar
        }
    }
}

impl View for WriteLog {
    type V = Seq<(FileRec, u64)>;

    closed spec fn view(&self) -> Seq<(FileRec, u64)> {
        in_order(self.order@, write_entries(self.writes))
    }
}

impl View for RecentWrites {
    type V = Seq<(FileRec, u64)>;

    closed spec fn view(&self) -> Seq<(FileRec, u64)> {
        match self.log {
            Some(log) => log@,
            None => Seq::empty(),
        }
    }
}

/// The entries of the files, in their order.
spec fn in_order(order: Seq<u128>, writes: Map<u128, (FileRec, u64)>) -> Seq<(FileRec, u64)> {
    order.map_values(|f: u128| writes[f])
}

/// The files in the order differ, and have entries of their own.
spec fn well_kept(order: Seq<u128>, writes: Map<u128, (FileRec, u64)>) -> bool {
    &&& order.no_duplicates()
    &&& forall|i: int|
        0 <= i < order.len() ==> writes.dom().contains(#[trigger] order[i])
            && writes[order[i]].0.id.id == order[i]
}

/// The files of the order but one.
spec fn but(order: Seq<u128>, file: u128) -> Seq<u128>
    decreases order.len(),
{
    if order.len() == 0 {
        order
    } else if order.last() == file {
        but(order.drop_last(), file)
    } else {
        but(order.drop_last(), file).push(order.last())
    }
}

proof fn but_members(order: Seq<u128>, file: u128)
    ensures
        but(order, file).len() <= order.len(),
        !but(order, file).contains(file),
        forall|f: u128| #[trigger]
            but(order, file).contains(f) <==> order.contains(f) && f != file,
        order.no_duplicates() ==> but(order, file).no_duplicates(),
    decreases order.len(),
{
    if order.len() > 0 {
        let init = order.drop_last();
        let sofar = but(init, file);
        let all = but(order, file);
        but_members(init, file);
        assert(order =~= init.push(order.last()));
        assert forall|f: u128| #[trigger] all.contains(f) <==> order.contains(f) && f != file by {
            assert(order.contains(f) <==> init.contains(f) || f == order.last()) by {
                if init.contains(f) {
                    let k = choose|k: int| 0 <= k < init.len() && init[k] == f;
                    assert(order[k] == f);
                }
                if f == order.last() {
                    assert(order[order.len() - 1] == f);
                }
            }
            if order.last() != file {
                assert(all == sofar.push(order.last()));
                if sofar.contains(f) {
                    let k = choose|k: int| 0 <= k < sofar.len() && sofar[k] == f;
                    assert(all[k] == f);
                }
                if f == order.last() {
                    assert(all[sofar.len() as int] == f);
                }
            }
        }
        if order.no_duplicates() {
            assert forall|i: int, j: int| 0 <= i < init.len() && 0 <= j < init.len() && i
                != j implies init[i] != init[j] by {
                assert(order[i] != order[j]);
            }
            assert(!init.contains(order.last())) by {
                if init.contains(order.last()) {
                    let k = choose|k: int| 0 <= k < init.len() && init[k] == order.last();
                    assert(order[k] == order[order.len() - 1]);
                }
            }
            if order.last() != file {
                assert(!sofar.contains(order.last()));
            }
        }
    }
}

proof fn but_drops_its_entries(
    order: Seq<u128>,
    writes: Map<u128, (FileRec, u64)>,
    file: FileId,
    entry: (FileRec, u64),
)
    requires
        well_kept(order, writes),
    ensures
        in_order(but(order, file.id), writes.insert(file.id, entry)) == not_of(
            in_order(order, writes),
            file,
        ),
    decreases order.len(),
{
    let after = writes.insert(file.id, entry);
    if order.len() == 0 {
        assert(in_order(but(order, file.id), after) =~= not_of(in_order(order, writes), file));
    } else {
        let init = order.drop_last();
        let last = order.last();
        assert(last == order[order.len() - 1]);
        assert(well_kept(init, writes)) by {
            assert forall|i: int| 0 <= i < init.len() implies writes.dom().contains(
                #[trigger] init[i],
            ) && writes[init[i]].0.id.id == init[i] by {
                assert(init[i] == order[i]);
            }
        }
        but_drops_its_entries(init, writes, file, entry);
        let listed = in_order(order, writes);
        assert(listed.drop_last() =~= in_order(init, writes));
        assert(listed.last() == writes[last]);
        assert(writes[last].0.id.id == last);
        assert((listed.last().0.id == file) == (last == file.id));
        if last != file.id {
            assert(in_order(but(order, file.id), after) =~= in_order(
                but(init, file.id),
                after,
            ).push(writes[last]));
        }
    }
}

fn order_but(order: &Vec<u128>, file: u128) -> (r: Vec<u128>)
    ensures
        r@ == but(order@, file),
{
    let mut out: Vec<u128> = Vec::new();
    let mut i: usize = 0;
    assert(order@.take(0) =~= Seq::<u128>::empty());
    while i < order.len()
        invariant
            i <= order@.len(),
            out@ == but(order@.take(i as int), file),
        decreases order@.len() - i,
    {
        proof {
            assert(order@.take(i + 1).drop_last() =~= order@.take(i as int));
            assert(order@.take(i + 1).last() == order@[i as int]);
        }
        if order[i] != file {
            out.push(order[i]);
        }
        i += 1;
    }
    assert(order@.take(i as int) =~= order@);
    out
}

impl WriteLog {
    spec fn wf(self) -> bool {
        well_kept(self.order@, write_entries(self.writes))
    }

    fn new() -> (log: WriteLog)
        ensures
            log.wf(),
            log@ == Seq::<(FileRec, u64)>::empty(),
    {
        let log: WriteLog = WriteLog { writes: writes_new(), order: Vec::new() };
        assert(log@ =~= Seq::<(FileRec, u64)>::empty());
        log
    }

    fn record(&mut self, metadata: FileMetadata, now_ms: u64)
        requires
            old(self).wf(),
        ensures
            final(self).wf(),
            ({
                let noted = not_of(old(self)@, metadata@.id).push((metadata@, now_ms));
                final(self)@ == (if noted.len() > MAX_RECENT_WRITES {
                    noted.drop_first()
                } else {
                    noted
                })
            }),
            not_of(old(self)@, metadata@.id).len() <= old(self)@.len(),
    {
        let id: FileId = metadata.id;
        let ghost rec = metadata@;
        let ghost order0 = self.order@;
        let ghost writes0 = write_entries(self.writes);
        let ghost noted = not_of(self@, rec.id).push((rec, now_ms));
        proof {
            not_of_members(self@, rec.id);
            but_members(order0, id.id);
            but_drops_its_entries(order0, writes0, id, (rec, now_ms));
        }
        let mut order: Vec<u128> = order_but(&self.order, id.id);
        order.push(id.id);
        let ghost writes1 = writes0.insert(id.id, (rec, now_ms));
        proof {
            assert forall|i: int| 0 <= i < order@.len() implies writes1.dom().contains(
                #[trigger] order@[i],
            ) && writes1[order@[i]].0.id.id == order@[i] by {
                if i < order@.len() - 1 {
                    let f = order@[i];
                    assert(but(order0, id.id)[i] == f);
                    assert(but(order0, id.id).contains(f));
                    assert(order0.contains(f));
                    let k = choose|k: int| 0 <= k < order0.len() && order0[k] == f;
                    assert(writes0.dom().contains(order0[k]));
                }
            }
            assert(in_order(order@, writes1) =~= noted);
        }
        writes_insert(&mut self.writes, id.id, (metadata, now_ms));
        self.order = order;
        if self.order.len() > MAX_RECENT_WRITES {
            let oldest: u128 = self.order[0];
            let ghost order1 = self.order@;
            let mut rest: Vec<u128> = self.order.clone();
            rest.remove(0);
            assert(rest@ =~= order1.drop_first());
            assert(in_order(rest@, writes1) =~= noted.drop_first());
            self.order = rest;
            proof {
                let writes2 = writes1.remove(oldest);
                assert forall|i: int| 0 <= i < rest@.len() implies #[trigger] rest@[i] != oldest by {
                    assert(rest@[i] == order1[i + 1]);
                    assert(order1[0] != order1[i + 1]);
                }
                assert(in_order(rest@, writes2) =~= noted.drop_first());
            }
            writes_remove(&mut self.writes, oldest);
        }
    }

    fn batch(&mut self, now_ms: u64) -> (r: Vec<FileMetadata>)
        requires
            old(self).wf(),
        ensures
            final(self).wf(),
            final(self)@ == younger(old(self)@, now_ms, (2 * GOSSIP_WINDOW_MS) as u64),
            recs(r@) == younger(final(self)@, now_ms, GOSSIP_WINDOW_MS).map_values(
                |e: (FileRec, u64)| e.0,
            ),
    {
        let ghost before = self@;
        let ghost order0 = self.order@;
        let ghost writes0 = write_entries(self.writes);
        let mut kept: Vec<u128> = Vec::new();
        let mut spent: Vec<u128> = Vec::new();
        let mut out: Vec<FileMetadata> = Vec::new();
        let mut i: usize = 0;
        proof {
            assert(before.take(0) =~= Seq::<(FileRec, u64)>::empty());
            assert(in_order(kept@, writes0) =~= Seq::<(FileRec, u64)>::empty());
            assert(recs(out@) =~= younger(Seq::empty(), now_ms, GOSSIP_WINDOW_MS).map_values(
                |e: (FileRec, u64)| e.0,
            ));
        }
        while i < self.order.len()
            invariant
                i <= order0.len(),
                self.order@ == order0,
                write_entries(self.writes) == writes0,
                well_kept(order0, writes0),
                before == in_order(order0, writes0),
                in_order(kept@, writes0) == younger(
                    before.take(i as int),
                    now_ms,
                    (2 * GOSSIP_WINDOW_MS) as u64,
                ),
                recs(out@) == younger(
                    in_order(kept@, writes0),
                    now_ms,
                    GOSSIP_WINDOW_MS,
                ).map_values(|e: (FileRec, u64)| e.0),
                forall|k: int|
                    0 <= k < kept@.len() ==> order0.take(i as int).contains(#[trigger] kept@[k])
                        && !spent@.contains(kept@[k]),
                forall|k: int|
                    0 <= k < spent@.len() ==> order0.take(i as int).contains(#[trigger] spent@[k]),
                kept@.no_duplicates(),
            decreases order0.len() - i,
        {
            let file: u128 = self.order[i];
            let ghost k0 = kept@;
            let ghost s0 = spent@;
            let ghost o0 = recs(out@);
            proof {
                assert(before.take(i + 1).drop_last() =~= before.take(i as int));
                assert(before.take(i + 1).last() == writes0[file]);
                assert(writes0.dom().contains(order0[i as int]));
                assert(order0.take(i + 1) =~= order0.take(i as int).push(file));
                assert(!order0.take(i as int).contains(file)) by {
                    if order0.take(i as int).contains(file) {
                        let k = choose|k: int|
                            0 <= k < i && order0.take(i as int)[k] == file;
                        assert(order0[k] == order0[i as int]);
                    }
                }
                assert(order0.take(i + 1)[i as int] == file);
                assert forall|f: u128| order0.take(i as int).contains(f) implies order0.take(
                    i + 1,
                ).contains(f) by {
                    let k = choose|k: int| 0 <= k < i && order0.take(i as int)[k] == f;
                    assert(order0.take(i + 1)[k] == f);
                }
            }
            match writes_get(&self.writes, file) {
                Some((record, at)) => {
                    let ghost rv = record@;
                    if since_exec(at, now_ms) < 2 * GOSSIP_WINDOW_MS {
                        kept.push(file);
                        proof {
                            let was = in_order(k0, writes0);
                            let is = in_order(kept@, writes0);
                            assert(is =~= was.push(writes0[file]));
                            assert(is.drop_last() =~= was);
                            assert forall|k: int| 0 <= k < kept@.len() implies order0.take(
                                i + 1,
                            ).contains(#[trigger] kept@[k]) && !spent@.contains(kept@[k]) by {
                                if k < k0.len() {
                                    assert(k0[k] == kept@[k]);
                                } else if spent@.contains(file) {
                                    let m = choose|m: int|
                                        0 <= m < spent@.len() && spent@[m] == file;
                                    assert(order0.take(i as int).contains(spent@[m]));
                                }
                            }
                            assert(!k0.contains(file)) by {
                                if k0.contains(file) {
                                    let m = choose|m: int| 0 <= m < k0.len() && k0[m] == file;
                                    assert(order0.take(i as int).contains(k0[m]));
                                }
                            }
                        }
                        if since_exec(at, now_ms) < GOSSIP_WINDOW_MS {
                            out.push(record);
                            proof {
                                assert(recs(out@) =~= o0.push(rv));
                                let y0 = younger(
                                    in_order(k0, writes0),
                                    now_ms,
                                    GOSSIP_WINDOW_MS,
                                );
                                let y = younger(in_order(kept@, writes0), now_ms, GOSSIP_WINDOW_MS);
                                assert(y == y0.push(writes0[file]));
                                assert(y.map_values(|e: (FileRec, u64)| e.0) =~= y0.map_values(
                                    |e: (FileRec, u64)| e.0,
                                ).push(rv));
                            }
                        }
                    } else {
                        spent.push(file);
                        proof {
                            assert forall|k: int| 0 <= k < kept@.len() implies order0.take(
                                i + 1,
                            ).contains(#[trigger] kept@[k]) && !spent@.contains(kept@[k]) by {
                                assert(order0.take(i as int).contains(k0[k]));
                                if spent@.contains(kept@[k]) {
                                    let m = choose|m: int|
                                        0 <= m < spent@.len() && spent@[m] == kept@[k];
                                    if m < s0.len() {
                                        assert(s0[m] == kept@[k]);
                                        assert(s0.contains(kept@[k]));
                                    }
                                }
                            }
                            assert forall|k: int| 0 <= k < spent@.len() implies order0.take(
                                i + 1,
                            ).contains(#[trigger] spent@[k]) by {
                                if k < s0.len() {
                                    assert(s0[k] == spent@[k]);
                                }
                            }
                        }
                    }
                },
                None => {},
            }
            i += 1;
        }
        assert(before.take(i as int) =~= before);
        let ghost kv = kept@;
        proof {
            assert forall|k: int| 0 <= k < kv.len() implies writes0.dom().contains(
                #[trigger] kv[k],
            ) && writes0[kv[k]].0.id.id == kv[k] by {
                assert(order0.take(i as int).contains(kv[k]));
                let m = choose|m: int| 0 <= m < i && order0.take(i as int)[m] == kv[k];
                assert(order0[m] == kv[k]);
            }
        }
        self.order = kept;
        let mut n: usize = 0;
        while n < spent.len()
            invariant
                n <= spent@.len(),
                self.order@ == kv,
                well_kept(kv, write_entries(self.writes)),
                forall|k: int| 0 <= k < kv.len() ==> !spent@.contains(#[trigger] kv[k]),
                in_order(kv, write_entries(self.writes)) == in_order(kv, writes0),
            decreases spent@.len() - n,
        {
            let ghost w = write_entries(self.writes);
            let file: u128 = spent[n];
            proof {
                assert forall|k: int| 0 <= k < kv.len() implies #[trigger] kv[k] != file by {
                    assert(!spent@.contains(kv[k]));
                    assert(spent@[n as int] == file);
                }
                assert(in_order(kv, w.remove(file)) =~= in_order(kv, w));
            }
            writes_remove(&mut self.writes, file);
            n += 1;
        }
        out
    }
}

/// The recent writes that are kept when some are told around.
pub open spec fn kept_for_gossip(entries: Seq<(FileRec, u64)>, now_ms: u64) -> Seq<
    (FileRec, u64),
> {
    younger(entries, now_ms, (2 * GOSSIP_WINDOW_MS) as u64)
}

/// The records that are told around.
pub open spec fn told_around(entries: Seq<(FileRec, u64)>, now_ms: u64) -> Seq<FileRec> {
    younger(kept_for_gossip(entries, now_ms), now_ms, GOSSIP_WINDOW_MS).map_values(
        |e: (FileRec, u64)| e.0,
    )
}

impl RecentWrites {
    #[verifier::type_invariant]
    spec fn kept_well(self) -> bool {
        self.log is Some ==> (self.log->0).wf()
    }

    pub fn new() -> (w: RecentWrites)
        ensures
            w@.len() == 0,
    {
        RecentWrites { log: None }
    }

    fn take_log(&mut self) -> (log: WriteLog)
        ensures
            log.wf(),
            log@ == old(self)@,
    {
        proof {
            use_type_invariant(&*self);
        }
        let mut taken: Option<WriteLog> = None;
        core::mem::swap(&mut self.log, &mut taken);
        match taken {
            Some(log) => log,
            None => WriteLog::new(),
        }
    }

    /// Notes a write, in place of any earlier one to its file. When too many are kept, the
    /// oldest goes.
    pub fn record_recent_write(&mut self, metadata: FileMetadata, now_ms: u64)
        ensures
            ({
                let noted = not_of(old(self)@, metadata@.id).push((metadata@, now_ms));
                final(self)@ == (if noted.len() > MAX_RECENT_WRITES {
                    noted.drop_first()
                } else {
                    noted
                })
            }),
            old(self)@.len() <= MAX_RECENT_WRITES ==> final(self)@.len() <= MAX_RECENT_WRITES,
    {
        let mut log: WriteLog = self.take_log();
        log.record(metadata, now_ms);
        self.log = Some(log);
    }

    /// The records to tell around now. Writes older than twice the window are forgotten.
    pub fn gossip_batch(&mut self, now_ms: u64) -> (r: Vec<FileMetadata>)
        ensures
            final(self)@ == younger(old(self)@, now_ms, (2 * GOSSIP_WINDOW_MS) as u64),
            recs(r@) == younger(final(self)@, now_ms, GOSSIP_WINDOW_MS).map_values(
                |e: (FileRec, u64)| e.0,
            ),
            final(self)@ == kept_for_gossip(old(self)@, now_ms),
            recs(r@) == told_around(old(self)@, now_ms),
    {
        let mut log: WriteLog = self.take_log();
        let told: Vec<FileMetadata> = log.batch(now_ms);
        self.log = Some(log);
        told
    }
}

proof fn young_ones(
    entries: Seq<(FileRec, u64)>,
    now_ms: u64,
    window_ms: u64,
    e: (FileRec, u64),
)
    ensures
        younger(entries, now_ms, window_ms).contains(e) <==> entries.contains(e) && since(
            e.1,
            now_ms,
        ) < window_ms,
    decreases entries.len(),
{
    if entries.len() > 0 {
        let init = entries.drop_last();
        let sofar = younger(init, now_ms, window_ms);
        let all = younger(entries, now_ms, window_ms);
        young_ones(init, now_ms, window_ms, e);
        if init.contains(e) {
            let k = choose|k: int| 0 <= k < init.len() && init[k] == e;
            assert(entries[k] == e);
        }
        if entries.contains(e) && !init.contains(e) {
            let k = choose|k: int| 0 <= k < entries.len() && entries[k] == e;
            if k < init.len() {
                assert(init[k] == e);
            }
        }
        if sofar.contains(e) {
            let k = choose|k: int| 0 <= k < sofar.len() && sofar[k] == e;
            assert(all[k] == e);
        }
        if all.contains(e) && !sofar.contains(e) {
            let k = choose|k: int| 0 <= k < all.len() && all[k] == e;
            if k < sofar.len() {
                assert(sofar[k] == e);
            }
        }
        assert(entries.last() == entries[entries.len() - 1]);
        if all != sofar {
            assert(all[sofar.len() as int] == entries.last());
        }
    }
}

/// What is told around is just what was written a moment ago: a write is told at every round that
/// comes within the window, and at none after it.
pub proof fn each_recent_write_is_told(
    recent: Seq<(FileRec, u64)>,
    now_ms: u64,
    write: (FileRec, u64),
)
    ensures
        younger(
            younger(recent, now_ms, (2 * GOSSIP_WINDOW_MS) as u64),
            now_ms,
            GOSSIP_WINDOW_MS,
        ).contains(write) <==> recent.contains(write) && since(write.1, now_ms) < GOSSIP_WINDOW_MS,
{
    let kept = younger(recent, now_ms, (2 * GOSSIP_WINDOW_MS) as u64);
    young_ones(recent, now_ms, (2 * GOSSIP_WINDOW_MS) as u64, write);
    young_ones(kept, now_ms, GOSSIP_WINDOW_MS, write);
}

/// The nodes that recent writes are told to.
pub open spec fn told_nodes(nodes: Seq<NodeInfo>, local: NodeId, leader: Option<NodeId>) -> Seq<
    NodeId,
> {
    match leader {
        Some(l) => if l != local && !online_peers(nodes, local).contains(l) {
            online_peers(nodes, local).push(l)
        } else {
            online_peers(nodes, local)
        },
        None => online_peers(nodes, local),
    }
}

/// Those that are told: the other nodes that are online, and the leader even if it is not among
/// them yet, unless it is this node.
pub fn gossip_targets(nodes: &Vec<NodeInfo>, local: NodeId, leader: Option<NodeId>) -> (r: Vec<
    NodeId,
>)
    ensures
        r@ == (match leader {
            Some(l) => if l != local && !online_peers(nodes@, local).contains(l) {
                online_peers(nodes@, local).push(l)
            } else {
                online_peers(nodes@, local)
            },
            None => online_peers(nodes@, local),
        }),
        r@ == told_nodes(nodes@, local, leader),
{
    let mut out: Vec<NodeId> = crate::metadata::broadcast_targets(nodes, local);
    match leader {
        Some(l) => {
            if l != local && !crate::locations::lists_node(&out, l) {
                out.push(l);
            }
        },
        None => {},
    }
    out
}

// ---------------------------------------------------------------------------
// Pushing changed records.
// ---------------------------------------------------------------------------

/// How often every follower is compared with the leader.
pub const FULL_SWEEP_MS: u64 = 300000;

/// When every follower was last compared with the leader.
#[derive(Debug)]
pub struct FullSweep {
    pub last_ms: u64,
}

/// It is time for a full sweep.
pub open spec fn sweep_is_due(last_ms: u64, is_leader: bool, now_ms: u64) -> bool {
    is_leader && since(last_ms, now_ms) >= FULL_SWEEP_MS
}

impl FullSweep {
    /// Starts the clock.
    pub fn new(now_ms: u64) -> (s: FullSweep)
        ensures
            s.last_ms == now_ms,
    {
        FullSweep { last_ms: now_ms }
    }

    /// Whether it is time for a sweep, which then counts as done. Only the leader sweeps; on
    /// another node the clock runs on.
    pub fn is_due(&mut self, is_leader: bool, now_ms: u64) -> (r: bool)
        ensures
            r == (is_leader && since(old(self).last_ms, now_ms) >= FULL_SWEEP_MS),
            final(self).last_ms == (if r {
                now_ms
            } else {
                old(self).last_ms
            }),
            r == sweep_is_due(old(self).last_ms, is_leader, now_ms),
    {
        let due: bool = is_leader && since_exec(self.last_ms, now_ms) >= FULL_SWEEP_MS;
        if due {
            self.last_ms = now_ms;
        }
        due
    }
}

/// A changed record, with the age of its file's tombstone and what the chunk map holds.
#[derive(Debug)]
pub struct Dirty {
    pub metadata: FileMetadata,
    pub tombstone_age_ms: Option<u64>,
    pub held: Option<Vec<ChunkLocation>>,
}

pub ghost struct DirtySpec {
    pub rec: FileRec,
    pub tombstone_age_ms: Option<u64>,
    pub held: Option<Seq<Loc>>,
}

impl View for Dirty {
    type V = DirtySpec;

    open spec fn view(&self) -> DirtySpec {
        DirtySpec {
            rec: self.metadata@,
            tombstone_age_ms: self.tombstone_age_ms,
            held: match self.held {
                Some(h) => Some(locs(h@)),
                None => None,
            },
        }
    }
}

/// The records to push: those of files that were not deleted just now, with the locations that
/// the chunk map holds.
pub open spec fn to_push(items: Seq<DirtySpec>) -> Seq<FileRec>
    decreases items.len(),
{
    if items.len() == 0 {
        Seq::empty()
    } else {
        let sofar = to_push(items.drop_last());
        let last = items.last();
        if grave(last.tombstone_age_ms) == Grave::Fresh {
            sofar
        } else {
            sofar.push(
                FileRec {
                    chunk_locations: match last.held {
                        Some(h) => h,
                        None => last.rec.chunk_locations,
                    },
                    ..last.rec
                },
            )
        }
    }
}

pub open spec fn dirties(s: Seq<Dirty>) -> Seq<DirtySpec> {
    s.map_values(|d: Dirty| d@)
}

pub fn healer_batch(items: &Vec<Dirty>) -> (r: Vec<FileMetadata>)
    ensures
        recs(r@) == to_push(dirties(items@)),
{
    let ghost all = dirties(items@);
    let mut out: Vec<FileMetadata> = Vec::new();
    let mut i: usize = 0;
    assert(all.take(0) =~= Seq::<DirtySpec>::empty());
    assert(recs(out@) =~= Seq::<FileRec>::empty());
    while i < items.len()
        invariant
            i <= items@.len(),
            all == dirties(items@),
            recs(out@) == to_push(all.take(i as int)),
        decreases items@.len() - i,
    {
        proof {
            assert(all.take(i + 1).drop_last() =~= all.take(i as int));
            assert(all.take(i + 1).last() == items@[i as int]@);
        }
        let ghost o = recs(out@);
        let d: &Dirty = &items[i];
        if tombstone(d.tombstone_age_ms) != Grave::Fresh {
            let held: Option<Vec<ChunkLocation>> = match &d.held {
                Some(h) => Some(crate::types::clone_locs(h)),
                None => None,
            };
            let m: FileMetadata = crate::metadata::with_map_locations(d.metadata.clone(), held);
            let ghost mv = m@;
            out.push(m);
            assert(recs(out@) =~= o.push(mv));
        }
        i += 1;
    }
    assert(all.take(i as int) =~= all);
    out
}

// ---------------------------------------------------------------------------
// Deleting.
// ---------------------------------------------------------------------------

pub open spec fn queue_names(entries: Seq<DeleteQueueEntry>, file: FileId) -> bool {
    exists|i: int| 0 <= i < entries.len() && (#[trigger] entries[i]).file_id == file
}

/// The places of the entries of a peer's queue that this node's queue lacks, in order.
pub open spec fn lacking(
    entries: Seq<DeleteQueueEntry>,
    own: Seq<DeleteQueueEntry>,
) -> Seq<int>
    decreases entries.len(),
{
    if entries.len() == 0 {
        Seq::empty()
    } else {
        let sofar = lacking(entries.drop_last(), own);
        if queue_names(own, entries.last().file_id) {
            sofar
        } else {
            sofar.push(entries.len() - 1)
        }
    }
}

/// Finds the entries of a peer's delete queue that a new leader takes over, by their places.
pub fn merge_delete_queue(entries: &Vec<DeleteQueueEntry>, own: &Vec<DeleteQueueEntry>) -> (r: Vec<
    usize,
>)
    ensures
        r@.map_values(|k: usize| k as int) == lacking(entries@, own@),
{
    let mut out: Vec<usize> = Vec::new();
    let mut i: usize = 0;
    assert(entries@.take(0) =~= Seq::<DeleteQueueEntry>::empty());
    assert(out@.map_values(|k: usize| k as int) =~= Seq::<int>::empty());
    while i < entries.len()
        invariant
            i <= entries@.len(),
            out@.map_values(|k: usize| k as int) == lacking(entries@.take(i as int), own@),
        decreases entries@.len() - i,
    {
        proof {
            assert(entries@.take(i + 1).drop_last() =~= entries@.take(i as int));
            assert(entries@.take(i + 1).last() == entries@[i as int]);
        }
        let id: FileId = entries[i].file_id;
        let mut known: bool = false;
        let mut k: usize = 0;
        while k < own.len()
            invariant
                k <= own@.len(),
                known == exists|j: int| 0 <= j < k && (#[trigger] own@[j]).file_id == id,
            decreases own@.len() - k,
        {
            if own[k].file_id == id {
                known = true;
            }
            k += 1;
        }
        let ghost o = out@.map_values(|k: usize| k as int);
        if !known {
            out.push(i);
            assert(out@.map_values(|k: usize| k as int) =~= o.push(i as int));
        }
        i += 1;
    }
    assert(entries@.take(i as int) =~= entries@);
    out
}

// ---------------------------------------------------------------------------
// Compaction.
// ---------------------------------------------------------------------------

/// The window over which the nodes spread their compactions.
pub const STAGGER_WINDOW_SECS: u64 = 300;

/// The store is compacted after so many seconds in any case.
pub const COMPACT_EVERY_SECS: u64 = 1800;

/// After so many seconds of putting compaction off it is forced.
pub const FORCE_AFTER_SECS: u64 = 300;

/// How often a compaction is tried in one round.
pub const COMPACT_ATTEMPTS: u8 = 3;

/// How long a node waits before its first compaction: its share of the window.
pub fn compaction_stagger(node_byte: u8, node_count: usize) -> (r: u64)
    ensures
        ({
            let n = if node_count == 0 {
                1
            } else {
                node_count as int
            };
            r == (node_byte as int % n) * (STAGGER_WINDOW_SECS as int / n)
        }),
        r < STAGGER_WINDOW_SECS,
{
    let n: u64 = if node_count == 0 {
        1
    } else {
        node_count as u64
    };
    let a: u64 = node_byte as u64 % n;
    let b: u64 = STAGGER_WINDOW_SECS / n;
    proof {
        assert(a < n && b * n <= 300 && a * b < 300 && a * b >= 0) by (nonlinear_arith)
            requires
                n >= 1,
                a < n,
                b == 300u64 / n,
                STAGGER_WINDOW_SECS == 300u64,
        ;
    }
    a * b
}

/// Nodes with different shares start at different times, as long as there are no more of them
/// than seconds in the window.
pub proof fn stagger_parts_nodes(a: u8, b: u8, n: int)
    requires
        0 < n <= STAGGER_WINDOW_SECS,
        a as int % n != b as int % n,
    ensures
        (a as int % n) * (STAGGER_WINDOW_SECS as int / n) != (b as int % n) * (
        STAGGER_WINDOW_SECS as int / n),
{
    let x = a as int % n;
    let y = b as int % n;
    let w = STAGGER_WINDOW_SECS as int / n;
    assert(w >= 1) by (nonlinear_arith)
        requires
            w == 300int / n,
            0 < n <= 300,
            STAGGER_WINDOW_SECS == 300u64,
    ;
    assert(x * w != y * w) by (nonlinear_arith)
        requires
            x != y,
            w >= 1,
    ;
}

/// What came of a compaction.
#[derive(Clone, Copy, Debug, PartialEq, Eq, Structural)]
pub enum CompactOutcome {
    /// It succeeded, and left the store with this size.
    Compacted(u64),
    /// A transaction was in the way: try again.
    Transient,
    /// The store was too busy, and compaction was put off.
    Deferred,
    Failed,
}

/// What follows.
#[derive(Clone, Copy, Debug, PartialEq, Eq, Structural)]
pub enum CompactStep {
    TryAgain,
    RoundDone,
}

/// Decides when the store is compacted.
pub struct Compaction {
    /// The store's size after the last compaction; zero if there was none.
    pub last_size: u64,
    pub last_time: Option<u64>,
    /// When compaction was first put off, since it last succeeded.
    pub deferred_since: Option<u64>,
}

/// The store has grown by a fifth since the last compaction, or was never compacted.
pub open spec fn fragmented(last_size: u64, current_size: u64) -> bool {
    last_size == 0 || 5 * current_size >= 6 * last_size
}

/// The store is compacted now.
pub open spec fn compaction_is_due(c: Compaction, current_size: u64, now_secs: u64) -> bool {
    fragmented(c.last_size, current_size) || match c.last_time {
        Some(t) => since(t, now_secs) >= COMPACT_EVERY_SECS,
        None => true,
    }
}

/// What an attempt leaves, and whether another follows.
pub open spec fn compaction_attempted(
    c: Compaction,
    outcome: CompactOutcome,
    attempt: u8,
    now_secs: u64,
) -> (Compaction, CompactStep) {
    (
        match outcome {
            CompactOutcome::Compacted(size) => Compaction {
                last_size: size,
                last_time: Some(now_secs),
                deferred_since: None,
            },
            CompactOutcome::Deferred => Compaction {
                deferred_since: Some(
                    match c.deferred_since {
                        Some(t) => t,
                        None => now_secs,
                    },
                ),
                ..c
            },
            _ => c,
        },
        if outcome == CompactOutcome::Transient && attempt + 1 < COMPACT_ATTEMPTS {
            CompactStep::TryAgain
        } else {
            CompactStep::RoundDone
        },
    )
}

/// Compaction is forced.
pub open spec fn compaction_is_forced(
    c: Compaction,
    baseline: u64,
    current_size: u64,
    now_secs: u64,
) -> bool {
    fragmented(baseline, current_size) && match c.deferred_since {
        Some(t) => since(t, now_secs) >= FORCE_AFTER_SECS,
        None => false,
    }
}

impl Compaction {
    pub fn new() -> (c: Compaction)
        ensures
            c.last_size == 0,
            c.last_time is None,
            c.deferred_since is None,
    {
        Compaction { last_size: 0, last_time: None, deferred_since: None }
    }

    fn fragmented(&self, current_size: u64) -> (r: bool)
        ensures
            r == fragmented(self.last_size, current_size),
    {
        self.last_size == 0 || 5 * (current_size as u128) >= 6 * (self.last_size as u128)
    }

    /// Whether the store is compacted now: it is fragmented, or half an hour has passed.
    pub fn is_due(&self, current_size: u64, now_secs: u64) -> (r: bool)
        ensures
            r == (fragmented(self.last_size, current_size) || match self.last_time {
                Some(t) => since(t, now_secs) >= COMPACT_EVERY_SECS,
                None => true,
            }),
            r == compaction_is_due(*self, current_size, now_secs),
    {
        if self.fragmented(current_size) {
            return true;
        }
        match self.last_time {
            Some(t) => since_exec(t, now_secs) >= COMPACT_EVERY_SECS,
            None => true,
        }
    }

    /// Takes in what came of an attempt, counted from zero. Only a transaction in the way makes
    /// it worth another one, and only so often.
    pub fn attempted(&mut self, outcome: CompactOutcome, attempt: u8, now_secs: u64) -> (r:
        CompactStep)
        requires
            attempt < COMPACT_ATTEMPTS,
        ensures
            r == (if outcome == CompactOutcome::Transient && attempt + 1 < COMPACT_ATTEMPTS {
                CompactStep::TryAgain
            } else {
                CompactStep::RoundDone
            }),
            match outcome {
                CompactOutcome::Compacted(size) => {
                    &&& final(self).last_size == size
                    &&& final(self).last_time == Some(now_secs)
                    &&& final(self).deferred_since is None
                },
                CompactOutcome::Deferred => {
                    &&& final(self).last_size == old(self).last_size
                    &&& final(self).last_time == old(self).last_time
                    &&& final(self).deferred_since == Some(
                        match old(self).deferred_since {
                            Some(t) => t,
                            None => now_secs,
                        },
                    )
                },
                _ => *final(self) == *old(self),
            },
            (*final(self), r) == compaction_attempted(*old(self), outcome, attempt, now_secs),
    {
        match outcome {
            CompactOutcome::Compacted(size) => {
                self.last_size = size;
                self.last_time = Some(now_secs);
                self.deferred_since = None;
                CompactStep::RoundDone
            },
            CompactOutcome::Deferred => {
                match self.deferred_since {
                    Some(_) => {},
                    None => {
                        self.deferred_since = Some(now_secs);
                    },
                }
                CompactStep::RoundDone
            },
            CompactOutcome::Transient => if attempt + 1 < COMPACT_ATTEMPTS {
                CompactStep::TryAgain
            } else {
                CompactStep::RoundDone
            },
            CompactOutcome::Failed => CompactStep::RoundDone,
        }
    }

    /// Whether compaction is forced: it has been put off for five minutes, and the store was
    /// fragmented when the round began, by the baseline that held then.
    pub fn forces(&self, baseline: u64, current_size: u64, now_secs: u64) -> (r: bool)
        ensures
            r == (match self.deferred_since {
                Some(t) => since(t, now_secs) >= FORCE_AFTER_SECS,
                None => false,
            } && fragmented(baseline, current_size)),
            r == compaction_is_forced(*self, baseline, current_size, now_secs),
    {
        let long: bool = match self.deferred_since {
            Some(t) => since_exec(t, now_secs) >= FORCE_AFTER_SECS,
            None => false,
        };
        long && (baseline == 0 || 5 * (current_size as u128) >= 6 * (baseline as u128))
    }
}

/// The words occur in the text.
pub open spec fn occurs(needle: Seq<u8>, text: Seq<u8>) -> bool {
    exists|k: int|
        #![trigger text.subrange(k, k + needle.len())]
        0 <= k && k + needle.len() <= text.len() && text.subrange(k, k + needle.len()) == needle
}

fn occurs_exec(needle: &[u8], text: &[u8]) -> (r: bool)
    ensures
        r == occurs(needle@, text@),
{
    let n: usize = needle.len();
    let t: usize = text.len();
    if n > t {
        return false;
    }
    let mut k: usize = 0;
    while k <= t - n
        invariant
            k <= t - n + 1,
            n == needle@.len(),
            t == text@.len(),
            n <= t,
            forall|j: int|
                #![trigger text@.subrange(j, j + n)]
                0 <= j < k ==> text@.subrange(j, j + n) != needle@,
        decreases t - n + 1 - k,
    {
        let mut i: usize = 0;
        while i < n && text[k + i] == needle[i]
            invariant
                i <= n,
                k <= t - n,
                n == needle@.len(),
                t == text@.len(),
                n <= t,
                forall|j: int| 0 <= j < i ==> text@[k + j] == needle@[j],
            decreases n - i,
        {
            i += 1;
        }
        let ghost here = text@.subrange(k as int, k + n);
        if i == n {
            assert(here =~= needle@);
            return true;
        }
        assert(here[i as int] != needle@[i as int]);
        if k == t - n {
            proof {
                assert forall|j: int|
                    #![trigger text@.subrange(j, j + n)]
                    0 <= j && j + n <= t implies text@.subrange(j, j + n) != needle@ by {
                    if j < k {
                    } else {
                        assert(j == k);
                    }
                }
            }
            return false;
        }
        k += 1;
    }
    false
}

/// What a failed compaction's message says of it.
pub open spec fn compact_failure(message: Seq<u8>) -> CompactOutcome {
    if occurs(word_transaction(), message) || occurs(word_in_progress(), message) {
        CompactOutcome::Transient
    } else if occurs(word_deferred(), message) {
        CompactOutcome::Deferred
    } else {
        CompactOutcome::Failed
    }
}

/// `transaction`.
pub open spec fn word_transaction() -> Seq<u8> {
    seq![116u8, 114u8, 97u8, 110u8, 115u8, 97u8, 99u8, 116u8, 105u8, 111u8, 110u8]
}

/// `in progress`.
pub open spec fn word_in_progress() -> Seq<u8> {
    seq![105u8, 110u8, 32u8, 112u8, 114u8, 111u8, 103u8, 114u8, 101u8, 115u8, 115u8]
}

/// `deferred`.
pub open spec fn word_deferred() -> Seq<u8> {
    seq![100u8, 101u8, 102u8, 101u8, 114u8, 114u8, 101u8, 100u8]
}

/// Reads what kind of failure a message tells of.
pub fn classify_compact_failure(message: &str) -> (r: CompactOutcome)
    ensures
        r == compact_failure(vstd::utf8::encode_utf8(message@)),
{
    let text: &[u8] = message.as_bytes();
    let transaction: [u8; 11] = [116, 114, 97, 110, 115, 97, 99, 116, 105, 111, 110];
    let in_progress: [u8; 11] = [105, 110, 32, 112, 114, 111, 103, 114, 101, 115, 115];
    let deferred: [u8; 8] = [100, 101, 102, 101, 114, 114, 101, 100];
    assert(transaction@ =~= word_transaction());
    assert(in_progress@ =~= word_in_progress());
    assert(deferred@ =~= word_deferred());
    if occurs_exec(transaction.as_slice(), text) || occurs_exec(in_progress.as_slice(), text) {
        CompactOutcome::Transient
    } else if occurs_exec(deferred.as_slice(), text) {
        CompactOutcome::Deferred
    } else {
        CompactOutcome::Failed
    }
}

} // verus!
