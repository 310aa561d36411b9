//! Reports on where chunks are, and answers about it.
use crate::chunk_map::or_zero;
use crate::loc_list::{by_offset, offset_sorted, offset_sorted_is_sorted, sort_by_offset};
use crate::protocol::Response;
use crate::text::{decimal, decimal_text, join_number};
use crate::types::{
    clone_locs, locs, ChunkId, ChunkLocation, ErrorCode, FileId, FileMetadata, Loc, NodeId,
};
use vstd::prelude::*;

verus! {

// ---------------------------------------------------------------------------
// Node lists.
// ---------------------------------------------------------------------------

/// The nodes of the first list, and behind them those of the second that are not among them yet.
pub open spec fn joined_nodes(a: Seq<NodeId>, b: Seq<NodeId>) -> Seq<NodeId>
    decreases b.len(),
{
    if b.len() == 0 {
        a
    } else {
        let sofar = joined_nodes(a, b.drop_last());
        if sofar.contains(b.last()) {
            sofar
        } else {
            sofar.push(b.last())
        }
    }
}

/// Joining loses no node, and invents none.
pub proof fn joining_keeps_every_node(a: Seq<NodeId>, b: Seq<NodeId>)
    ensures
        joined_nodes(a, b).len() >= a.len(),
        forall|i: int| 0 <= i < a.len() ==> joined_nodes(a, b)[i] == #[trigger] a[i],
        forall|i: int| 0 <= i < b.len() ==> joined_nodes(a, b).contains(#[trigger] b[i]),
        forall|n: NodeId| #[trigger]
            joined_nodes(a, b).contains(n) ==> a.contains(n) || b.contains(n),
    decreases b.len(),
{
    if b.len() > 0 {
        let init = b.drop_last();
        joining_keeps_every_node(a, init);
        let j0 = joined_nodes(a, init);
        let j = joined_nodes(a, b);
        assert forall|i: int| 0 <= i < b.len() implies j.contains(#[trigger] b[i]) by {
            if i < init.len() {
                assert(j0.contains(init[i]));
                let k = choose|k: int| 0 <= k < j0.len() && j0[k] == init[i];
                assert(j[k] == b[i]);
            } else if j0.contains(b[i]) {
            } else {
                assert(j[j0.len() as int] == b[i]);
            }
        }
        assert forall|n: NodeId| #[trigger] j.contains(n) implies a.contains(n) || b.contains(
            n,
        ) by {
            let k = choose|k: int| 0 <= k < j.len() && j[k] == n;
            if k < j0.len() {
                assert(j0[k] == n);
                assert(j0.contains(n));
                if init.contains(n) {
                    let m = choose|m: int| 0 <= m < init.len() && init[m] == n;
                    assert(b[m] == n);
                }
            } else {
                assert(b[b.len() - 1] == n);
            }
        }
    }
}

pub fn lists_node(list: &Vec<NodeId>, node: NodeId) -> (r: bool)
    ensures
        r == list@.contains(node),
{
    let mut i: usize = 0;
    while i < list.len()
        invariant
            i <= list@.len(),
            forall|j: int| 0 <= j < i ==> list@[j] != node,
        decreases list@.len() - i,
    {
        if list[i] == node {
            assert(list@[i as int] == node);
            return true;
        }
        i += 1;
    }
    false
}

fn join_nodes(a: &Vec<NodeId>, b: &Vec<NodeId>) -> (r: Vec<NodeId>)
    ensures
        r@ == joined_nodes(a@, b@),
{
    let mut out: Vec<NodeId> = a.clone();
    let mut i: usize = 0;
    assert(b@.take(0) =~= Seq::<NodeId>::empty());
    while i < b.len()
        invariant
            i <= b@.len(),
            out@ == joined_nodes(a@, b@.take(i as int)),
        decreases b@.len() - i,
    {
        proof {
            assert(b@.take(i + 1).drop_last() =~= b@.take(i as int));
            assert(b@.take(i + 1).last() == b@[i as int]);
        }
        if !lists_node(&out, b[i]) {
            out.push(b[i]);
        }
        i += 1;
    }
    assert(b@.take(i as int) =~= b@);
    out
}

// ---------------------------------------------------------------------------
// One report.
// ---------------------------------------------------------------------------

pub open spec fn first_of<T>(a: Option<T>, b: Option<T>) -> Option<T> {
    match a {
        Some(v) => Some(v),
        None => b,
    }
}

pub(crate) fn first_of_exec<T>(a: Option<T>, b: Option<T>) -> (r: Option<T>)
    ensures
        r == first_of(a, b),
{
    match a {
        Some(v) => Some(v),
        None => b,
    }
}

/// A report without a write time gets the time at which it came in.
pub open spec fn stamped(report: Loc, now_ms: u64) -> Loc {
    Loc { written_at: Some(if report.written_at is Some {
        report.written_at->0
    } else {
        now_ms
    }), ..report }
}

/// A report with the nodes that it was settled on, and what it leaves open filled in from the
/// held record. The held record's write time counts before the report's.
pub open spec fn filled_in(held: Option<Loc>, report: Loc, nodes: Seq<NodeId>) -> Loc {
    match held {
        Some(h) => Loc {
            nodes: nodes,
            file_offset: first_of(report.file_offset, h.file_offset),
            written_at: first_of(h.written_at, report.written_at),
            client_write_seq: first_of(report.client_write_seq, h.client_write_seq),
            file_id: first_of(report.file_id, h.file_id),
            ..report
        },
        None => Loc { nodes: nodes, ..report },
    }
}

/// The report is not older than the held record.
pub open spec fn not_older(held: Loc, report: Loc) -> bool {
    or_zero(report.written_at) >= or_zero(held.written_at)
}

/// The nodes that a report on a held chunk is settled on, for a replication factor of `rf`; none
/// if the report is ignored.
///
/// While both sides name too few nodes, they are joined. A report that names more nodes than are
/// held, or that has the full number, is believed if it is not older. One with too few nodes
/// against a full record is a straggler.
pub open spec fn settled_nodes(held: Loc, report: Loc, rf: usize) -> Option<Seq<NodeId>> {
    let inc = report.nodes.len();
    let ext = held.nodes.len();
    if inc < rf && ext < rf {
        Some(joined_nodes(held.nodes, report.nodes))
    } else if inc <= ext && inc < rf && ext >= rf {
        None
    } else if not_older(held, report) {
        Some(report.nodes)
    } else {
        Some(held.nodes)
    }
}

/// The record after a report; none if the report is ignored.
pub open spec fn settled(held: Option<Loc>, report: Loc, rf: usize) -> Option<Loc> {
    match held {
        Some(h) => match settled_nodes(h, report, rf) {
            Some(nodes) => Some(filled_in(held, report, nodes)),
            None => None,
        },
        None => Some(report),
    }
}

/// Gives a report the time at which it came in, if it has none.
pub fn stamp(report: ChunkLocation, now_ms: u64) -> (r: ChunkLocation)
    ensures
        r@ == stamped(report@, now_ms),
{
    match report.written_at {
        Some(_) => report,
        None => {
            let mut r: ChunkLocation = report;
            r.written_at = Some(now_ms);
            r
        },
    }
}

fn or_zero_at(t: Option<u64>) -> (r: u64)
    ensures
        r == or_zero(t),
{
    match t {
        Some(v) => v,
        None => 0,
    }
}

fn fill_in(held: &Option<ChunkLocation>, report: &ChunkLocation, nodes: Vec<NodeId>) -> (r:
    ChunkLocation)
    ensures
        r@ == filled_in(
            match held {
                Some(h) => Some(h@),
                None => None,
            },
            report@,
            nodes@,
        ),
{
    match held {
        Some(h) => ChunkLocation {
            chunk_id: report.chunk_id,
            nodes,
            size: report.size,
            checksum: report.checksum,
            file_offset: first_of_exec(report.file_offset, h.file_offset),
            written_at: first_of_exec(h.written_at, report.written_at),
            client_write_seq: first_of_exec(report.client_write_seq, h.client_write_seq),
            file_id: first_of_exec(report.file_id, h.file_id),
        },
        None => ChunkLocation {
            chunk_id: report.chunk_id,
            nodes,
            size: report.size,
            checksum: report.checksum,
            file_offset: report.file_offset,
            written_at: report.written_at,
            client_write_seq: report.client_write_seq,
            file_id: report.file_id,
        },
    }
}

pub open spec fn opt_loc(l: Option<ChunkLocation>) -> Option<Loc> {
    match l {
        Some(v) => Some(v@),
        None => None,
    }
}

/// Settles a report on one chunk against the record held of it. Nothing is returned for a report
/// that is ignored; the request is then answered at once.
pub fn replicate_chunk_location(
    held: &Option<ChunkLocation>,
    report: ChunkLocation,
    rf: usize,
    now_ms: u64,
) -> (r: Option<ChunkLocation>)
    ensures
        opt_loc(r) == settled(opt_loc(*held), stamped(report@, now_ms), rf),
{
    let report: ChunkLocation = stamp(report, now_ms);
    match held {
        Some(h) => {
            let inc: usize = report.nodes.len();
            let ext: usize = h.nodes.len();
            let nodes: Vec<NodeId> = if inc < rf && ext < rf {
                join_nodes(&h.nodes, &report.nodes)
            } else if inc <= ext && inc < rf && ext >= rf {
                return None;
            } else if or_zero_at(report.written_at) >= or_zero_at(h.written_at) {
                report.nodes.clone()
            } else {
                h.nodes.clone()
            };
            Some(fill_in(held, &report, nodes))
        },
        None => Some(report),
    }
}

/// A chunk is healed at once.
pub open spec fn healed_at_once(l: Loc, is_patch_token: bool, rf: usize) -> bool {
    !is_patch_token && l.nodes.len() < rf
}

/// Whether a chunk is to be healed at once: it has too few replicas, and is no patch token, of
/// which there never is a file.
pub fn needs_heal(location: &ChunkLocation, is_patch_token: bool, rf: usize) -> (r: bool)
    ensures
        r == (!is_patch_token && location@.nodes.len() < rf),
        r == healed_at_once(location@, is_patch_token, rf),
{
    !is_patch_token && location.nodes.len() < rf
}

/// A report never makes a chunk look lost: while too few replicas are known, none is forgotten;
/// and a full record never becomes one with too few.
pub proof fn reports_forget_no_replica(held: Loc, report: Loc, rf: usize)
    requires
        settled(Some(held), report, rf) is Some,
    ensures
        held.nodes.len() < rf && report.nodes.len() < rf ==> forall|n: NodeId|
            held.nodes.contains(n) || report.nodes.contains(n)
                ==> settled(Some(held), report, rf)->0.nodes.contains(n),
        held.nodes.len() >= rf ==> settled(Some(held), report, rf)->0.nodes.len() >= rf,
{
    joining_keeps_every_node(held.nodes, report.nodes);
    if held.nodes.len() < rf && report.nodes.len() < rf {
        let j = joined_nodes(held.nodes, report.nodes);
        assert forall|n: NodeId| held.nodes.contains(n) || report.nodes.contains(
            n,
        ) implies j.contains(n) by {
            if held.nodes.contains(n) {
                let k = choose|k: int| 0 <= k < held.nodes.len() && held.nodes[k] == n;
                assert(j[k] == n);
            } else {
                let k = choose|k: int| 0 <= k < report.nodes.len() && report.nodes[k] == n;
                assert(j.contains(report.nodes[k]));
            }
        }
    }
}

// ---------------------------------------------------------------------------
// A batch of reports.
// ---------------------------------------------------------------------------

/// One report of a batch, with what the node knows about it: whether the chunk belongs to a file
/// that still exists, and the record on disk.
#[derive(Debug)]
pub struct Reported {
    pub location: ChunkLocation,
    pub live: bool,
    pub on_disk: Option<ChunkLocation>,
}

pub ghost struct ReportedSpec {
    pub location: Loc,
    pub live: bool,
    pub on_disk: Option<Loc>,
}

impl View for Reported {
    type V = ReportedSpec;

    open spec fn view(&self) -> ReportedSpec {
        ReportedSpec {
            location: self.location@,
            live: self.live,
            on_disk: opt_loc(self.on_disk),
        }
    }
}

pub open spec fn reports(s: Seq<Reported>) -> Seq<ReportedSpec> {
    s.map_values(|r: Reported| r@)
}

/// What a batch comes to: the records to store, in the order in which their chunks first came
/// up; the chunks left with too few replicas; and how many reports were turned away because
/// their file is gone.
pub struct BatchOutcome {
    pub to_commit: Vec<ChunkLocation>,
    pub under_replicated: Vec<ChunkId>,
    pub rejected: usize,
}

pub ghost struct BatchSpec {
    pub to_commit: Seq<Loc>,
    pub under_replicated: Seq<ChunkId>,
    pub rejected: nat,
}

impl View for BatchOutcome {
    type V = BatchSpec;

    open spec fn view(&self) -> BatchSpec {
        BatchSpec {
            to_commit: locs(self.to_commit@),
            under_replicated: self.under_replicated@,
            rejected: self.rejected as nat,
        }
    }
}

/// The place of a chunk among the records to store.
pub open spec fn pending_place(list: Seq<Loc>, chunk: ChunkId) -> Option<int> {
    crate::chunk_map::first_naming(list, chunk)
}

/// The nodes that a report of a batch is settled on: joined while both sides name too few, the
/// report's if only it names enough. A record that names enough is never touched by a batch.
pub open spec fn batch_nodes(held: Option<Loc>, report: Loc, rf: usize) -> Option<Seq<NodeId>> {
    let held_nodes = match held {
        Some(h) => h.nodes,
        None => Seq::empty(),
    };
    if report.nodes.len() < rf && held_nodes.len() < rf {
        Some(joined_nodes(held_nodes, report.nodes))
    } else if held_nodes.len() >= rf {
        None
    } else {
        Some(report.nodes)
    }
}

/// The chunks without one of them.
pub open spec fn without_chunk(list: Seq<ChunkId>, chunk: ChunkId) -> Seq<ChunkId>
    decreases list.len(),
{
    if list.len() == 0 {
        list
    } else if list.last() == chunk {
        without_chunk(list.drop_last(), chunk)
    } else {
        without_chunk(list.drop_last(), chunk).push(list.last())
    }
}

/// The outcome after one more report. A chunk that came up before in the batch is settled
/// against what the batch has made of it, not against the record on disk.
pub open spec fn batch_step(sofar: BatchSpec, r: ReportedSpec, rf: usize) -> BatchSpec {
    if !r.live {
        BatchSpec { rejected: sofar.rejected + 1, ..sofar }
    } else {
        let chunk = r.location.chunk_id;
        let place = pending_place(sofar.to_commit, chunk);
        let held = match place {
            Some(i) => Some(sofar.to_commit[i]),
            None => r.on_disk,
        };
        match batch_nodes(held, r.location, rf) {
            None => sofar,
            Some(nodes) => {
                let merged = filled_in(held, r.location, nodes);
                BatchSpec {
                    to_commit: match place {
                        Some(i) => sofar.to_commit.update(i, merged),
                        None => sofar.to_commit.push(merged),
                    },
                    under_replicated: if nodes.len() < rf {
                        sofar.under_replicated.push(chunk)
                    } else {
                        without_chunk(sofar.under_replicated, chunk)
                    },
                    ..sofar
                }
            },
        }
    }
}

/// The outcome of a batch.
pub open spec fn batch_outcome(items: Seq<ReportedSpec>, rf: usize) -> BatchSpec
    decreases items.len(),
{
    if items.len() == 0 {
        BatchSpec { to_commit: Seq::empty(), under_replicated: Seq::empty(), rejected: 0 }
    } else {
        batch_step(batch_outcome(items.drop_last(), rf), items.last(), rf)
    }
}

fn find_pending(list: &Vec<ChunkLocation>, chunk: ChunkId) -> (r: Option<usize>)
    ensures
        match r {
            Some(i) => pending_place(locs(list@), chunk) == Some(i as int) && i < list@.len(),
            None => pending_place(locs(list@), chunk) is None,
        },
{
    let mut i: usize = 0;
    while i < list.len()
        invariant
            i <= list@.len(),
            forall|j: int| 0 <= j < i ==> (#[trigger] locs(list@)[j]).chunk_id != chunk,
        decreases list@.len() - i,
    {
        assert(locs(list@)[i as int] == list@[i as int]@);
        if list[i].chunk_id == chunk {
            proof {
                crate::chunk_map::first_naming_is_first(locs(list@), chunk);
            }
            return Some(i);
        }
        i += 1;
    }
    proof {
        crate::chunk_map::first_naming_is_first(locs(list@), chunk);
    }
    None
}

fn drop_chunk(list: Vec<ChunkId>, chunk: ChunkId) -> (r: Vec<ChunkId>)
    ensures
        r@ == without_chunk(list@, chunk),
{
    let mut out: Vec<ChunkId> = Vec::new();
    let mut i: usize = 0;
    assert(list@.take(0) =~= Seq::<ChunkId>::empty());
    while i < list.len()
        invariant
            i <= list@.len(),
            out@ == without_chunk(list@.take(i as int), chunk),
        decreases list@.len() - i,
    {
        proof {
            assert(list@.take(i + 1).drop_last() =~= list@.take(i as int));
            assert(list@.take(i + 1).last() == list@[i as int]);
        }
        if list[i] != chunk {
            out.push(list[i]);
        }
        i += 1;
    }
    assert(list@.take(i as int) =~= list@);
    out
}

/// Settles a batch of reports. The records to store are to be stored together.
pub fn replicate_chunk_locations(items: &Vec<Reported>, rf: usize) -> (r: BatchOutcome)
    ensures
        r@ == batch_outcome(reports(items@), rf),
{
    let ghost all = reports(items@);
    let mut pending: Vec<ChunkLocation> = Vec::new();
    let mut under: Vec<ChunkId> = Vec::new();
    let mut rejected: usize = 0;
    let mut i: usize = 0;
    assert(all.take(0) =~= Seq::<ReportedSpec>::empty());
    assert(locs(pending@) =~= Seq::<Loc>::empty());
    while i < items.len()
        invariant
            i <= items@.len(),
            all == reports(items@),
            rejected <= i,
            (BatchSpec {
                to_commit: locs(pending@),
                under_replicated: under@,
                rejected: rejected as nat,
            }) == batch_outcome(all.take(i as int), rf),
        decreases items@.len() - i,
    {
        proof {
            assert(all.take(i + 1).drop_last() =~= all.take(i as int));
            assert(all.take(i + 1).last() == items@[i as int]@);
        }
        let ghost sofar = batch_outcome(all.take(i as int), rf);
        let item: &Reported = &items[i];
        if !item.live {
            rejected += 1;
        } else {
            let report: &ChunkLocation = &item.location;
            let chunk: ChunkId = report.chunk_id;
            let place: Option<usize> = find_pending(&pending, chunk);
            let held: Option<ChunkLocation> = match place {
                Some(p) => {
                    assert(locs(pending@)[p as int] == pending@[p as int]@);
                    Some(pending[p].clone())
                },
                None => match &item.on_disk {
                    Some(l) => Some(l.clone()),
                    None => None,
                },
            };
            let inc: usize = report.nodes.len();
            let ext: usize = match &held {
                Some(h) => h.nodes.len(),
                None => 0,
            };
            let nodes: Option<Vec<NodeId>> = if inc < rf && ext < rf {
                match &held {
                    Some(h) => Some(join_nodes(&h.nodes, &report.nodes)),
                    None => {
                        let none: Vec<NodeId> = Vec::new();
                        assert(none@ =~= Seq::<NodeId>::empty());
                        Some(join_nodes(&none, &report.nodes))
                    },
                }
            } else if ext >= rf {
                None
            } else {
                Some(report.nodes.clone())
            };
            match nodes {
                Some(nodes) => {
                    let full: bool = nodes.len() >= rf;
                    let merged: ChunkLocation = fill_in(&held, report, nodes);
                    let ghost mv = merged@;
                    if full {
                        under = drop_chunk(under, chunk);
                    } else {
                        under.push(chunk);
                    }
                    match place {
                        Some(p) => {
                            pending.set(p, merged);
                            assert(locs(pending@) =~= sofar.to_commit.update(p as int, mv));
                        },
                        None => {
                            pending.push(merged);
                            assert(locs(pending@) =~= sofar.to_commit.push(mv));
                        },
                    }
                },
                None => {},
            }
        }
        i += 1;
    }
    assert(all.take(i as int) =~= all);
    BatchOutcome { to_commit: pending, under_replicated: under, rejected }
}

/// A report belongs to something that exists.
pub open spec fn belongs_to_something(l: Loc, file_exists: bool, chunk_referred: bool) -> bool {
    if l.file_id is Some {
        file_exists
    } else {
        chunk_referred
    }
}

/// Whether a report belongs to something that still exists. With a file it is live if the file
/// exists; without one, if some file still refers to the chunk.
pub fn report_is_live(location: &ChunkLocation, file_exists: bool, chunk_referred: bool) -> (r:
    bool)
    ensures
        r == (if location@.file_id is Some {
            file_exists
        } else {
            chunk_referred
        }),
        r == belongs_to_something(location@, file_exists, chunk_referred),
{
    match location.file_id {
        Some(_) => file_exists,
        None => chunk_referred,
    }
}

/// The chunks to heal after a batch was stored: those left with too few replicas that are no
/// patch tokens, in order.
pub open spec fn heal_after_batch(under: Seq<ChunkId>, is_token: Seq<bool>) -> Seq<ChunkId>
    decreases under.len(),
{
    if under.len() == 0 {
        under
    } else {
        let sofar = heal_after_batch(under.drop_last(), is_token.drop_last());
        if is_token.last() {
            sofar
        } else {
            sofar.push(under.last())
        }
    }
}

pub fn chunks_to_heal(under: &Vec<ChunkId>, is_token: &Vec<bool>) -> (r: Vec<ChunkId>)
    requires
        under@.len() == is_token@.len(),
    ensures
        r@ == heal_after_batch(under@, is_token@),
{
    let mut out: Vec<ChunkId> = Vec::new();
    let mut i: usize = 0;
    assert(under@.take(0) =~= Seq::<ChunkId>::empty());
    while i < under.len()
        invariant
            i <= under@.len(),
            under@.len() == is_token@.len(),
            out@ == heal_after_batch(under@.take(i as int), is_token@.take(i as int)),
        decreases under@.len() - i,
    {
        proof {
            assert(under@.take(i + 1).drop_last() =~= under@.take(i as int));
            assert(is_token@.take(i + 1).drop_last() =~= is_token@.take(i as int));
        }
        if !is_token[i] {
            out.push(under[i]);
        }
        i += 1;
    }
    assert(under@.take(i as int) =~= under@);
    assert(is_token@.take(i as int) =~= is_token@);
    out
}

/// The reports of a batch could not be stored.
pub open spec fn batch_is_lost(stored: bool, attempted: usize) -> bool {
    !stored && attempted > 0
}

/// The reply to a batch: an acknowledgement once its records are stored. They are stored
/// together or not at all, so a failure counts every one of them.
pub fn batch_response(stored: bool, attempted: usize, received: usize) -> (r: Response)
    ensures
        stored || attempted == 0 ==> r.acknowledges(),
        !stored && attempted > 0 ==> r.refuses(
            "Failed to replicate "@ + decimal(attempted as nat) + "/"@ + decimal(received as nat)
                + " chunk locations"@,
            ErrorCode::InternalError,
        ),
        r.acknowledges() <==> !batch_is_lost(stored, attempted),
{
    if stored || attempted == 0 {
        return Response::Done { data: None };
    }
    let mut text: String = join_number("Failed to replicate ", attempted as u64, "/");
    text.append(decimal_text(received as u64).as_str());
    text.append(" chunk locations");
    Response::refusal(text, ErrorCode::InternalError)
}

/// The reply to purging a list of records, of which some could not be purged.
pub fn purge_response(failed: usize, total: usize) -> (r: Response)
    ensures
        failed == 0 ==> r.acknowledges(),
        failed > 0 ==> r.refuses(
            "Failed to purge "@ + decimal(failed as nat) + "/"@ + decimal(total as nat)
                + " chunk locations"@,
            ErrorCode::InternalError,
        ),
{
    if failed == 0 {
        return Response::Done { data: None };
    }
    let mut text: String = join_number("Failed to purge ", failed as u64, "/");
    text.append(decimal_text(total as u64).as_str());
    text.append(" chunk locations");
    Response::refusal(text, ErrorCode::InternalError)
}

/// A batch leaves a chunk alone whose record names enough replicas: nothing is stored for it,
/// however many reports the batch has on it.
pub proof fn batch_keeps_healthy_record(items: Seq<ReportedSpec>, rf: usize, chunk: ChunkId)
    requires
        forall|i: int|
            0 <= i < items.len() && (#[trigger] items[i]).location.chunk_id == chunk ==> (
            items[i].on_disk is Some && items[i].on_disk->0.nodes.len() >= rf),
    ensures
        pending_place(batch_outcome(items, rf).to_commit, chunk) is None,
    decreases items.len(),
{
    if items.len() > 0 {
        let init = items.drop_last();
        assert forall|i: int| 0 <= i < init.len() && (
        #[trigger] init[i]).location.chunk_id == chunk implies init[i].on_disk is Some
            && init[i].on_disk->0.nodes.len() >= rf by {
            assert(items[i].location.chunk_id == chunk);
        }
        batch_keeps_healthy_record(init, rf, chunk);
        let sofar = batch_outcome(init, rf);
        let last = items[items.len() - 1];
        let out = batch_outcome(items, rf);
        crate::chunk_map::first_naming_is_first(sofar.to_commit, chunk);
        crate::chunk_map::first_naming_is_first(sofar.to_commit, last.location.chunk_id);
        crate::chunk_map::first_naming_is_first(out.to_commit, chunk);
        if out.to_commit != sofar.to_commit {
            assert forall|j: int| 0 <= j < out.to_commit.len() implies (
            #[trigger] out.to_commit[j]).chunk_id != chunk by {
                if j < sofar.to_commit.len() {
                    assert(sofar.to_commit[j].chunk_id != chunk);
                }
            }
        }
    }
}

/// The records to store name every chunk once, and are what their reports say of the chunk.
pub proof fn batch_stores_each_chunk_once(items: Seq<ReportedSpec>, rf: usize)
    ensures
        forall|i: int, j: int|
            0 <= i < j < batch_outcome(items, rf).to_commit.len() ==> (
            #[trigger] batch_outcome(items, rf).to_commit[i]).chunk_id != (
            #[trigger] batch_outcome(items, rf).to_commit[j]).chunk_id,
        batch_outcome(items, rf).to_commit.len() + batch_outcome(items, rf).rejected
            <= items.len(),
    decreases items.len(),
{
    if items.len() > 0 {
        batch_stores_each_chunk_once(items.drop_last(), rf);
        let sofar = batch_outcome(items.drop_last(), rf);
        let last = items[items.len() - 1];
        crate::chunk_map::first_naming_is_first(sofar.to_commit, last.location.chunk_id);
        let out = batch_outcome(items, rf).to_commit;
        assert forall|i: int, j: int| 0 <= i < j < out.len() implies (#[trigger] out[i]).chunk_id
            != (#[trigger] out[j]).chunk_id by {
            if j < sofar.to_commit.len() {
                assert(sofar.to_commit[i].chunk_id != sofar.to_commit[j].chunk_id);
            }
        }
    }
}

// ---------------------------------------------------------------------------
// Which chunks are still needed.
// ---------------------------------------------------------------------------

pub fn lists_chunk(list: &Vec<ChunkId>, chunk: ChunkId) -> (r: bool)
    ensures
        r == list@.contains(chunk),
{
    let mut i: usize = 0;
    while i < list.len()
        invariant
            i <= list@.len(),
            forall|j: int| 0 <= j < i ==> list@[j] != chunk,
        decreases list@.len() - i,
    {
        if list[i] == chunk {
            assert(list@[i as int] == chunk);
            return true;
        }
        i += 1;
    }
    false
}

/// The chunk is needed: a stored file record refers to it, or the chunk map does, or a pending
/// patch does.
pub open spec fn is_needed(
    chunk: ChunkId,
    in_files: Seq<ChunkId>,
    map: Map<u128, crate::chunk_map::FileEntry>,
    in_patches: Seq<ChunkId>,
) -> bool {
    in_files.contains(chunk) || crate::chunk_map::named_by_some(map, chunk) || in_patches.contains(
        chunk,
    )
}

/// The needed ones among the chunks, in order.
pub open spec fn needed_among(
    chunks: Seq<ChunkId>,
    in_files: Seq<ChunkId>,
    map: Map<u128, crate::chunk_map::FileEntry>,
    in_patches: Seq<ChunkId>,
) -> Seq<ChunkId> {
    chunks.filter(|c: ChunkId| is_needed(c, in_files, map, in_patches))
}

/// Answers which chunks are needed. A patch table that cannot be read counts as empty; file
/// records that cannot be read make the request fail.
pub fn confirm_chunks_live(
    chunk_ids: &Vec<ChunkId>,
    in_files: Option<&Vec<ChunkId>>,
    map: &crate::chunk_map::ChunkMap,
    in_patches: &Vec<ChunkId>,
) -> (r: Response)
    ensures
        match in_files {
            Some(files) => match r {
                Response::ChunkLiveness { live } => live@ == needed_among(
                    chunk_ids@,
                    files@,
                    map@.files,
                    in_patches@,
                ),
                _ => false,
            },
            None => r.refuses("Failed to read local metadata"@, ErrorCode::InternalError),
        },
{
    match in_files {
        None => Response::refusal(
            "Failed to read local metadata".to_owned(),
            ErrorCode::InternalError,
        ),
        Some(files) => {
            let mut live: Vec<ChunkId> = Vec::new();
            let mut i: usize = 0;
            proof {
                reveal(Seq::filter);
                assert(chunk_ids@.take(0) =~= Seq::<ChunkId>::empty());
            }
            while i < chunk_ids.len()
                invariant
                    i <= chunk_ids@.len(),
                    live@ == needed_among(
                        chunk_ids@.take(i as int),
                        files@,
                        map@.files,
                        in_patches@,
                    ),
                decreases chunk_ids@.len() - i,
            {
                proof {
                    reveal(Seq::filter);
                    assert(chunk_ids@.take(i + 1).drop_last() =~= chunk_ids@.take(i as int));
                    assert(chunk_ids@.take(i + 1).last() == chunk_ids@[i as int]);
                }
                let c: ChunkId = chunk_ids[i];
                if lists_chunk(files, c) || map.names_chunk(c) || lists_chunk(in_patches, c) {
                    live.push(c);
                }
                i += 1;
            }
            assert(chunk_ids@.take(i as int) =~= chunk_ids@);
            Response::ChunkLiveness { live }
        },
    }
}

/// For each chunk, whether it can be served from here.
pub open spec fn served(on_disk: Seq<bool>, tombstoned: Seq<bool>) -> Seq<bool> {
    Seq::new(on_disk.len(), |i: int| on_disk[i] && !tombstoned[i])
}

/// Which chunks this node can serve: those on disk that were not marked as deleted.
pub fn has_chunks(on_disk: &Vec<bool>, tombstoned: &Vec<bool>) -> (r: Vec<bool>)
    requires
        on_disk@.len() == tombstoned@.len(),
    ensures
        r@.len() == on_disk@.len(),
        forall|i: int| 0 <= i < r@.len() ==> #[trigger] r@[i] == (on_disk@[i] && !tombstoned@[i]),
        r@ =~= served(on_disk@, tombstoned@),
{
    let mut out: Vec<bool> = Vec::new();
    let mut i: usize = 0;
    while i < on_disk.len()
        invariant
            i <= on_disk@.len(),
            out@.len() == i,
            on_disk@.len() == tombstoned@.len(),
            forall|j: int| 0 <= j < i ==> #[trigger] out@[j] == (on_disk@[j] && !tombstoned@[j]),
        decreases on_disk@.len() - i,
    {
        out.push(on_disk[i] && !tombstoned[i]);
        i += 1;
    }
    out
}

// ---------------------------------------------------------------------------
// Reporting locations.
// ---------------------------------------------------------------------------

/// The location to report for a chunk: with the nodes of the chunk's own record where that names
/// more than one node or no fewer than the file's record does. A record of one node alone may be
/// no more than that node speaking for itself.
pub open spec fn reported_nodes(inline: Loc, record: Loc) -> Loc {
    if record.nodes.len() > 1 || record.nodes.len() >= inline.nodes.len() {
        Loc { nodes: record.nodes, ..inline }
    } else {
        inline
    }
}

fn with_nodes(l: &ChunkLocation, nodes: Vec<NodeId>) -> (r: ChunkLocation)
    ensures
        r@ == (Loc { nodes: nodes@, ..l@ }),
{
    let mut out: ChunkLocation = l.clone();
    out.nodes = nodes;
    out
}

/// Chooses the nodes to report for a chunk.
pub fn resolve_chunk_nodes(inline: &ChunkLocation, sled_loc: ChunkLocation) -> (r: ChunkLocation)
    ensures
        r@ == reported_nodes(inline@, sled_loc@),
{
    if sled_loc.nodes.len() > 1 || sled_loc.nodes.len() >= inline.nodes.len() {
        with_nodes(inline, sled_loc.nodes)
    } else {
        inline.clone()
    }
}

/// What is reported of a chunk never has fewer nodes than the file's record, unless the chunk's
/// own record names at least two.
pub proof fn reporting_never_drops_to_a_lone_node(inline: Loc, record: Loc)
    ensures
        reported_nodes(inline, record).nodes.len() >= inline.nodes.len() || reported_nodes(
            inline,
            record,
        ).nodes.len() >= 2,
        (Loc { nodes: inline.nodes, ..reported_nodes(inline, record) }) == inline,
{
}

/// The location to report to administrators. For a token that was consolidated into a chunk with
/// a record of its own, `folded` is that record, and its nodes count; otherwise the chunk's own
/// record is weighed, if there is one.
pub fn resolve_chunk_location_for_info(
    inline: &ChunkLocation,
    folded: Option<ChunkLocation>,
    record: Option<ChunkLocation>,
) -> (r: ChunkLocation)
    ensures
        r@ == match folded {
            Some(f) => Loc { nodes: f@.nodes, ..inline@ },
            None => match record {
                Some(s) => reported_nodes(inline@, s@),
                None => inline@,
            },
        },
{
    match folded {
        Some(f) => with_nodes(inline, f.nodes),
        None => match record {
            Some(s) => resolve_chunk_nodes(inline, s),
            None => inline.clone(),
        },
    }
}

/// The locations of a file as they are reported to administrators.
pub open spec fn info_locations(
    list: Seq<Loc>,
    folded: Seq<Option<Loc>>,
    records: Seq<Option<Loc>>,
) -> Seq<Loc> {
    Seq::new(
        list.len(),
        |i: int|
            match folded[i] {
                Some(f) => Loc { nodes: f.nodes, ..list[i] },
                None => match records[i] {
                    Some(r) => reported_nodes(list[i], r),
                    None => list[i],
                },
            },
    )
}

/// Reports a file to administrators. For each of its locations, `folded` holds the record of the
/// chunk that its token was consolidated into, and `records` that of the chunk itself.
pub fn file_info(
    metadata: FileMetadata,
    folded: &Vec<Option<ChunkLocation>>,
    records: &Vec<Option<ChunkLocation>>,
) -> (r: Response)
    requires
        folded@.len() == metadata@.chunk_locations.len(),
        records@.len() == metadata@.chunk_locations.len(),
    ensures
        match r {
            Response::FileInfo { metadata: m, chunk_locations } => m@ == metadata@ && locs(
                chunk_locations@,
            ) == info_locations(
                metadata@.chunk_locations,
                opt_locs(folded@),
                opt_locs(records@),
            ),
            _ => false,
        },
{
    let ghost ls = metadata@.chunk_locations;
    let ghost want = info_locations(ls, opt_locs(folded@), opt_locs(records@));
    let mut out: Vec<ChunkLocation> = Vec::new();
    let mut i: usize = 0;
    let list: &Vec<ChunkLocation> = &metadata.chunk_locations;
    while i < list.len()
        invariant
            i <= list@.len(),
            ls == locs(list@),
            folded@.len() == ls.len(),
            records@.len() == ls.len(),
            want == info_locations(ls, opt_locs(folded@), opt_locs(records@)),
            locs(out@) =~= want.take(i as int),
        decreases list@.len() - i,
    {
        let ghost before = locs(out@);
        proof {
            assert(ls[i as int] == list@[i as int]@);
            assert(opt_locs(folded@)[i as int] == opt_loc(folded@[i as int]));
            assert(opt_locs(records@)[i as int] == opt_loc(records@[i as int]));
        }
        let f: Option<ChunkLocation> = match &folded[i] {
            Some(l) => Some(l.clone()),
            None => None,
        };
        let s: Option<ChunkLocation> = match &records[i] {
            Some(l) => Some(l.clone()),
            None => None,
        };
        let l: ChunkLocation = resolve_chunk_location_for_info(&list[i], f, s);
        let ghost lv = l@;
        assert(lv == want[i as int]);
        out.push(l);
        assert(locs(out@) =~= before.push(lv));
        i += 1;
    }
    assert(want.take(i as int) =~= want);
    Response::FileInfo { metadata, chunk_locations: out }
}

/// The slot of a location as the wire carries it.
pub open spec fn wire_slot(l: Loc) -> Option<u32> {
    match l.slot() {
        Some(s) => Some(s as u32),
        None => None,
    }
}

fn wire_slot_exec(l: &ChunkLocation) -> (r: Option<u32>)
    ensures
        r == wire_slot(l@),
{
    match l.slot() {
        Some(s) => {
            #[verifier::truncate]
            let w: u32 = s as u32;
            Some(w)
        },
        None => None,
    }
}

/// The highest slot of the list.
pub open spec fn highest_slot(list: Seq<Loc>) -> Option<u32>
    decreases list.len(),
{
    if list.len() == 0 {
        None
    } else {
        match (highest_slot(list.drop_last()), wire_slot(list.last())) {
            (Some(a), Some(b)) => Some(if a >= b {
                a
            } else {
                b
            }),
            (Some(a), None) => Some(a),
            (None, b) => b,
        }
    }
}

/// The last slot that a list reaches: its highest, or, where no location has a place, as many
/// as there are locations.
pub open spec fn last_slot(list: Seq<Loc>) -> u32 {
    match highest_slot(list) {
        Some(s) => s,
        None => if list.len() == 0 {
            0
        } else {
            (list.len() - 1) as u32
        },
    }
}

/// The location lies in the window of `count` slots from `from` on. A location without a place
/// counts as the first slot.
pub open spec fn in_window(l: Loc, from: u32, count: u32) -> bool {
    let s = match wire_slot(l) {
        Some(s) => s,
        None => 0,
    };
    from <= s && s < (if from + count <= u32::MAX {
        from + count
    } else {
        u32::MAX as int
    })
}

/// What is reported of the locations in the window: each with the nodes of its own record where
/// there is one.
pub open spec fn windowed(
    list: Seq<Loc>,
    records: Seq<Option<Loc>>,
    from: u32,
    count: u32,
) -> Seq<Loc>
    decreases list.len(),
{
    if list.len() == 0 {
        list
    } else {
        let sofar = windowed(list.drop_last(), records.drop_last(), from, count);
        if in_window(list.last(), from, count) {
            sofar.push(
                match records.last() {
                    Some(r) => reported_nodes(list.last(), r),
                    None => list.last(),
                },
            )
        } else {
            sofar
        }
    }
}

pub open spec fn opt_locs(s: Seq<Option<ChunkLocation>>) -> Seq<Option<Loc>> {
    s.map_values(|l: Option<ChunkLocation>| opt_loc(l))
}

pub fn last_chunk_slot(list: &Vec<ChunkLocation>) -> (r: u32)
    ensures
        r == last_slot(locs(list@)),
{
    let ghost ls = locs(list@);
    let mut best: Option<u32> = None;
    let mut i: usize = 0;
    assert(ls.take(0) =~= Seq::<Loc>::empty());
    while i < list.len()
        invariant
            i <= list@.len(),
            ls == locs(list@),
            best == highest_slot(ls.take(i as int)),
        decreases list@.len() - i,
    {
        proof {
            assert(ls.take(i + 1).drop_last() =~= ls.take(i as int));
            assert(ls.take(i + 1).last() == list@[i as int]@);
        }
        best = match (best, wire_slot_exec(&list[i])) {
            (Some(a), Some(b)) => Some(
                if a >= b {
                    a
                } else {
                    b
                },
            ),
            (Some(a), None) => Some(a),
            (None, b) => b,
        };
        i += 1;
    }
    assert(ls.take(i as int) =~= ls);
    match best {
        Some(s) => s,
        None => if list.len() == 0 {
            0
        } else {
            #[verifier::truncate]
            let w: u32 = (list.len() - 1) as u32;
            w
        },
    }
}

/// The reply to a request for a window of a file's chunk map: the locations in the window in
/// offset order, whatever order they were kept in, and one past the last slot of the file.
/// `records` holds, for each location, the chunk's own record if there is one.
pub fn file_chunk_map_slice(
    file_id: FileId,
    list: &Vec<ChunkLocation>,
    records: &Vec<Option<ChunkLocation>>,
    write_seq: u64,
    from_chunk: u32,
    count: u32,
) -> (r: Response)
    requires
        records@.len() == list@.len(),
        last_slot(locs(list@)) < u32::MAX,
    ensures
        match r {
            Response::FileChunkMap {
                file_id: f,
                locations,
                from_chunk: from,
                total_chunks,
                write_seq: seq,
            } => {
                &&& f == file_id
                &&& locs(locations@) == offset_sorted(
                    windowed(locs(list@), opt_locs(records@), from_chunk, count),
                )
                &&& from == from_chunk
                &&& total_chunks == last_slot(locs(list@)) + 1
                &&& seq == write_seq
            },
            _ => false,
        },
{
    let ghost ls = locs(list@);
    let ghost rs = opt_locs(records@);
    let total_chunks: u32 = last_chunk_slot(list) + 1;
    let end: u32 = from_chunk.saturating_add(count);
    let mut window: Vec<ChunkLocation> = Vec::new();
    let mut i: usize = 0;
    assert(ls.take(0) =~= Seq::<Loc>::empty());
    assert(locs(window@) =~= Seq::<Loc>::empty());
    while i < list.len()
        invariant
            i <= list@.len(),
            records@.len() == list@.len(),
            ls == locs(list@),
            rs == opt_locs(records@),
            end == (if from_chunk + count <= u32::MAX {
                from_chunk + count
            } else {
                u32::MAX as int
            }),
            locs(window@) == windowed(
                ls.take(i as int),
                rs.take(i as int),
                from_chunk,
                count,
            ),
        decreases list@.len() - i,
    {
        proof {
            assert(ls.take(i + 1).drop_last() =~= ls.take(i as int));
            assert(rs.take(i + 1).drop_last() =~= rs.take(i as int));
            assert(ls.take(i + 1).last() == list@[i as int]@);
            assert(rs.take(i + 1).last() == opt_loc(records@[i as int]));
        }
        let ghost before = locs(window@);
        let s: u32 = match wire_slot_exec(&list[i]) {
            Some(s) => s,
            None => 0,
        };
        if from_chunk <= s && s < end {
            let l: ChunkLocation = match &records[i] {
                Some(r) => resolve_chunk_nodes(&list[i], r.clone()),
                None => list[i].clone(),
            };
            let ghost lv = l@;
            window.push(l);
            assert(locs(window@) =~= before.push(lv));
        }
        i += 1;
    }
    assert(ls.take(i as int) =~= ls);
    assert(rs.take(i as int) =~= rs);
    let locations: Vec<ChunkLocation> = sort_by_offset(window);
    Response::FileChunkMap { file_id, locations, from_chunk, total_chunks, write_seq }
}

/// The entry that a stored record stands in with.
pub open spec fn stand_in(stored: Option<crate::types::FileRec>) -> Option<(Seq<Loc>, u64)> {
    match stored {
        Some(rec) => if rec.chunk_locations.len() > 0 {
            Some((rec.chunk_locations, rec.write_seq))
        } else {
            None
        },
        None => None,
    }
}

/// The entry that answers a request when the chunk map has none: the stored record's, unless it
/// has no locations.
pub fn chunk_map_fallback(stored: Option<FileMetadata>) -> (r: Option<(Vec<ChunkLocation>, u64)>)
    ensures
        match stored {
            Some(m) => if m@.chunk_locations.len() > 0 {
                r is Some && locs((r->0).0@) == m@.chunk_locations && (r->0).1 == m@.write_seq
            } else {
                r is None
            },
            None => r is None,
        },
        stand_in(
            match stored {
                Some(m) => Some(m@),
                None => None,
            },
        ) == match r {
            Some(e) => Some((locs(e.0@), e.1)),
            None => None,
        },
{
    match stored {
        Some(m) => if m.chunk_locations.len() > 0 {
            Some((m.chunk_locations, m.write_seq))
        } else {
            None
        },
        None => None,
    }
}

/// The window that a client gets is in offset order.
pub proof fn chunk_map_window_is_ordered(
    list: Seq<Loc>,
    records: Seq<Option<Loc>>,
    from: u32,
    count: u32,
)
    ensures
        by_offset(offset_sorted(windowed(list, records, from, count))),
{
    offset_sorted_is_sorted(windowed(list, records, from, count));
}

// ---------------------------------------------------------------------------
// The file's own record.
// ---------------------------------------------------------------------------

/// A file's locations after reports on it were taken in one by one, each as the chunk map takes
/// it. Reports without a place, or on other files, are passed over.
pub open spec fn record_reported(
    list: Seq<Loc>,
    file: FileId,
    reports: Seq<Loc>,
) -> Seq<Loc>
    decreases reports.len(),
{
    if reports.len() == 0 {
        list
    } else {
        let sofar = record_reported(list, file, reports.drop_last());
        let last = reports.last();
        if last.file_id == Some(file) && last.file_offset is Some {
            reported_into(sofar, last)
        } else {
            sofar
        }
    }
}

/// The list after a report with a place: it is weighed against the first location of its slot,
/// or added at the end.
pub open spec fn reported_into(list: Seq<Loc>, report: Loc) -> Seq<Loc> {
    match crate::loc_list::first_filling(list, report.slot()->0) {
        Some(i) => if crate::chunk_map::report_wins(list[i], report) {
            list.update(i, report)
        } else {
            list
        },
        None => list.push(report),
    }
}

fn wins(held: &ChunkLocation, report: &ChunkLocation) -> (r: bool)
    ensures
        r == crate::chunk_map::report_wins(held@, report@),
{
    if held.chunk_id == report.chunk_id {
        true
    } else {
        match (report.client_write_seq, held.client_write_seq) {
            (Some(inc), Some(ext)) => inc >= ext,
            (Some(_), None) => true,
            (None, Some(_)) => false,
            (None, None) => or_zero_at(report.written_at) >= or_zero_at(held.written_at),
        }
    }
}

/// A file's record with the stored reports on it taken in, in offset order.
pub fn patch_file_record(record: FileMetadata, reports: &Vec<ChunkLocation>) -> (r: FileMetadata)
    ensures
        r@ == (crate::types::FileRec {
            chunk_locations: offset_sorted(
                record_reported(record@.chunk_locations, record@.id, locs(reports@)),
            ),
            ..record@
        }),
{
    let ghost rec = record@;
    let file: FileId = record.id;
    let mut list: Vec<ChunkLocation> = clone_locs(&record.chunk_locations);
    let ghost rs = locs(reports@);
    let mut i: usize = 0;
    assert(rs.take(0) =~= Seq::<Loc>::empty());
    while i < reports.len()
        invariant
            i <= reports@.len(),
            rs == locs(reports@),
            file == rec.id,
            locs(list@) == record_reported(rec.chunk_locations, file, rs.take(i as int)),
        decreases reports@.len() - i,
    {
        proof {
            assert(rs.take(i + 1).drop_last() =~= rs.take(i as int));
            assert(rs.take(i + 1).last() == reports@[i as int]@);
        }
        let ghost before = locs(list@);
        let report: &ChunkLocation = &reports[i];
        if report.file_id == Some(file) {
            match report.slot() {
                Some(slot) => match crate::loc_list::find_slot(&list, slot) {
                    Some(p) => {
                        assert(locs(list@)[p as int] == list@[p as int]@);
                        if wins(&list[p], report) {
                            list.set(p, report.clone());
                            assert(locs(list@) =~= before.update(p as int, report@));
                        }
                    },
                    None => {
                        list.push(report.clone());
                        assert(locs(list@) =~= before.push(report@));
                    },
                },
                None => {},
            }
        }
        i += 1;
    }
    assert(rs.take(i as int) =~= rs);
    let mut out: FileMetadata = record;
    out.chunk_locations = sort_by_offset(list);
    out
}

} // verus!
