//! What becomes of reports on where chunks are, and what is told of it to those who ask.
use vstd::multiset::Multiset;
use vstd::prelude::*;

use crate::chunk_map::{first_naming, first_naming_is_first, FileEntry};
use crate::loc_list::{first_filling, first_filling_is_first};
use crate::locations::{
    batch_outcome, batch_stores_each_chunk_once, batch_step, heal_after_batch, highest_slot,
    info_locations, joined_nodes, joining_keeps_every_node, last_slot, needed_among,
    record_reported, reported_into, reported_nodes, settled, stamped, windowed, without_chunk,
    BatchSpec, ReportedSpec,
};
use crate::types::{ChunkId, FileId, Loc, NodeId};

verus! {

/// A report that names as many nodes as chunks are to have replicas, or more, and is not older
/// than the record, decides where the chunk is, however few nodes the record names. One without
/// a time of its own counts from when it came in, and a record without one is older than any.
pub proof fn a_fresh_full_report_is_believed(held: Loc, report: Loc, rf: usize, now_ms: u64)
    requires
        report.nodes.len() >= rf,
        held.written_at is Some && report.written_at is Some ==> held.written_at->0
            <= report.written_at->0,
        held.written_at is Some && report.written_at is None ==> held.written_at->0 <= now_ms,
    ensures
        settled(Some(held), stamped(report, now_ms), rf) is Some,
        settled(Some(held), stamped(report, now_ms), rf)->0.nodes == report.nodes,
{
}

/// A report that names enough nodes but is older than the record changes none of its nodes.
pub proof fn an_older_full_report_moves_nothing(held: Loc, report: Loc, rf: usize, now_ms: u64)
    requires
        report.nodes.len() >= rf,
        held.written_at is Some,
        report.written_at is Some ==> report.written_at->0 < held.written_at->0,
        report.written_at is None ==> now_ms < held.written_at->0,
    ensures
        settled(Some(held), stamped(report, now_ms), rf) is Some,
        settled(Some(held), stamped(report, now_ms), rf)->0.nodes == held.nodes,
{
}

/// A report that names too few nodes is added to a record that does too, whatever their times,
/// and ignored by one that names enough.
pub proof fn a_partial_report_adds_to_a_partial_record(
    held: Loc,
    report: Loc,
    rf: usize,
    now_ms: u64,
    n: NodeId,
)
    requires
        report.nodes.len() < rf,
    ensures
        held.nodes.len() >= rf ==> settled(Some(held), stamped(report, now_ms), rf) is None,
        held.nodes.len() < rf ==> settled(Some(held), stamped(report, now_ms), rf) is Some && (
        settled(Some(held), stamped(report, now_ms), rf)->0.nodes.contains(n)
            <==> held.nodes.contains(n) || report.nodes.contains(n)),
        held.nodes.len() < rf && held.nodes.no_duplicates() ==> settled(
            Some(held),
            stamped(report, now_ms),
            rf,
        )->0.nodes.no_duplicates(),
{
    joining_keeps_every_node(held.nodes, report.nodes);
    if held.nodes.no_duplicates() {
        joined_once(held.nodes, report.nodes);
    }
    let j = joined_nodes(held.nodes, report.nodes);
    if held.nodes.contains(n) {
        let k = choose|k: int| 0 <= k < held.nodes.len() && held.nodes[k] == n;
        assert(j[k] == n);
    }
    if report.nodes.contains(n) {
        let k = choose|k: int| 0 <= k < report.nodes.len() && report.nodes[k] == n;
        assert(j.contains(report.nodes[k]));
    }
}

proof fn joined_once(a: Seq<NodeId>, b: Seq<NodeId>)
    requires
        a.no_duplicates(),
    ensures
        joined_nodes(a, b).no_duplicates(),
    decreases b.len(),
{
    if b.len() > 0 {
        joined_once(a, b.drop_last());
    }
}

/// What a report says besides the nodes: its own chunk, size and checksum count. A place, a
/// client write sequence and a file that it leaves open are taken from the record; the time is
/// the record's where that has one. A report on a chunk without a record is stored as it is, with
/// the time at which it came in where it has none.
pub proof fn a_report_is_completed_from_the_record(
    held: Loc,
    report: Loc,
    rf: usize,
    now_ms: u64,
)
    ensures
        ({
            let out = settled(Some(held), stamped(report, now_ms), rf);
            out is Some ==> {
                let l = out->0;
                &&& l.chunk_id == report.chunk_id
                &&& l.size == report.size
                &&& l.checksum == report.checksum
                &&& report.file_offset is Some ==> l.file_offset == report.file_offset
                &&& report.file_offset is None ==> l.file_offset == held.file_offset
                &&& report.client_write_seq is Some ==> l.client_write_seq
                    == report.client_write_seq
                &&& report.client_write_seq is None ==> l.client_write_seq == held.client_write_seq
                &&& report.file_id is Some ==> l.file_id == report.file_id
                &&& report.file_id is None ==> l.file_id == held.file_id
                &&& held.written_at is Some ==> l.written_at == held.written_at
                &&& held.written_at is None && report.written_at is Some ==> l.written_at
                    == report.written_at
                &&& held.written_at is None && report.written_at is None ==> l.written_at == Some(
                    now_ms,
                )
            }
        }),
        settled(None, stamped(report, now_ms), rf) is Some,
        report.written_at is Some ==> settled(None, stamped(report, now_ms), rf)->0 == report,
        report.written_at is None ==> settled(None, stamped(report, now_ms), rf)->0 == (Loc {
            written_at: Some(now_ms),
            ..report
        }),
{
}

// ---------------------------------------------------------------------------
// Batches of reports.
// ---------------------------------------------------------------------------

/// A report of a batch whose chunk belongs to nothing any more is counted and changes nothing
/// else. A live one meets `held`: what the batch has made of its chunk already, at place `j`, or
/// the stored record. A record that names enough nodes stays; one that names too few takes the
/// report's nodes where those are enough, and is joined with them where they are too few.
pub proof fn a_batch_settles_each_report(
    sofar: BatchSpec,
    r: ReportedSpec,
    rf: usize,
    j: int,
    n: NodeId,
)
    requires
        0 <= j <= sofar.to_commit.len(),
        forall|m: int|
            0 <= m < j ==> (#[trigger] sofar.to_commit[m]).chunk_id != r.location.chunk_id,
        j < sofar.to_commit.len() ==> sofar.to_commit[j].chunk_id == r.location.chunk_id,
    ensures
        ({
            let out = batch_step(sofar, r, rf);
            let held = if j < sofar.to_commit.len() {
                Some(sofar.to_commit[j])
            } else {
                r.on_disk
            };
            let known = if held is Some {
                held->0.nodes
            } else {
                Seq::<NodeId>::empty()
            };
            &&& !r.live ==> out.rejected == sofar.rejected + 1 && out.to_commit == sofar.to_commit
                && out.under_replicated == sofar.under_replicated
            &&& r.live ==> out.rejected == sofar.rejected
            &&& r.live && known.len() >= rf ==> out.to_commit == sofar.to_commit
            &&& r.live && known.len() < rf ==> {
                &&& j < out.to_commit.len()
                &&& out.to_commit[j].chunk_id == r.location.chunk_id
                &&& r.location.nodes.len() >= rf ==> out.to_commit[j].nodes == r.location.nodes
                &&& r.location.nodes.len() < rf ==> (out.to_commit[j].nodes.contains(n)
                    <==> known.contains(n) || r.location.nodes.contains(n))
                &&& out.to_commit.len() == sofar.to_commit.len() || out.to_commit.len() == j + 1
                &&& forall|m: int|
                    0 <= m < sofar.to_commit.len() && m != j ==> out.to_commit[m]
                        == #[trigger] sofar.to_commit[m]
                &&& out.to_commit[j].size == r.location.size
                &&& r.location.file_offset is Some ==> out.to_commit[j].file_offset
                    == r.location.file_offset
                &&& r.location.file_offset is None && held is Some ==> out.to_commit[j].file_offset
                    == held->0.file_offset
                &&& held is Some && held->0.written_at is Some ==> out.to_commit[j].written_at
                    == held->0.written_at
                &&& (held is None || held->0.written_at is None) ==> out.to_commit[j].written_at
                    == r.location.written_at
            }
        }),
{
    let chunk = r.location.chunk_id;
    first_naming_is_first(sofar.to_commit, chunk);
    if j < sofar.to_commit.len() {
        match first_naming(sofar.to_commit, chunk) {
            Some(i) => {
                if i < j {
                    assert(sofar.to_commit[i].chunk_id == chunk);
                }
            },
            None => {},
        }
        assert(first_naming(sofar.to_commit, chunk) == Some(j));
    } else {
        match first_naming(sofar.to_commit, chunk) {
            Some(i) => {
                assert(sofar.to_commit[i].chunk_id == chunk);
            },
            None => {},
        }
        assert(first_naming(sofar.to_commit, chunk) is None);
    }
    let known = if j < sofar.to_commit.len() {
        sofar.to_commit[j].nodes
    } else if r.on_disk is Some {
        r.on_disk->0.nodes
    } else {
        Seq::<NodeId>::empty()
    };
    joining_keeps_every_node(known, r.location.nodes);
    let both = joined_nodes(known, r.location.nodes);
    if known.contains(n) {
        let k = choose|k: int| 0 <= k < known.len() && known[k] == n;
        assert(both[k] == n);
    }
    if r.location.nodes.contains(n) {
        let k = choose|k: int| 0 <= k < r.location.nodes.len() && r.location.nodes[k] == n;
        assert(both.contains(r.location.nodes[k]));
    }
}

proof fn without_chunk_members(list: Seq<ChunkId>, chunk: ChunkId, c: ChunkId)
    ensures
        without_chunk(list, chunk).contains(c) <==> list.contains(c) && c != chunk,
    decreases list.len(),
{
    if list.len() > 0 {
        let init = list.drop_last();
        without_chunk_members(init, chunk, c);
        let w0 = without_chunk(init, chunk);
        let w = without_chunk(list, chunk);
        if list.contains(c) {
            let k = choose|k: int| 0 <= k < list.len() && list[k] == c;
            if k < init.len() {
                assert(init[k] == c);
            }
        }
        if init.contains(c) {
            let k = choose|k: int| 0 <= k < init.len() && init[k] == c;
            assert(list[k] == c);
        }
        if w0.contains(c) {
            let k = choose|k: int| 0 <= k < w0.len() && w0[k] == c;
            assert(w[k] == c);
        }
        if w.contains(c) {
            let k = choose|k: int| 0 <= k < w.len() && w[k] == c;
            if k < w0.len() {
                assert(w0[k] == c);
            } else {
                assert(list[list.len() - 1] == c);
            }
        }
        if list.last() == c && c != chunk {
            assert(w[w.len() - 1] == c);
        }
    }
}

/// After a batch, a chunk is held to have too few replicas just where the record to be stored of
/// it names fewer nodes than chunks are to have replicas; and the reports turned away are those
/// that belong to nothing.
pub proof fn a_batch_knows_what_is_under_replicated(
    items: Seq<ReportedSpec>,
    rf: usize,
    chunk: ChunkId,
)
    ensures
        batch_outcome(items, rf).under_replicated.contains(chunk) <==> exists|i: int|
            0 <= i < batch_outcome(items, rf).to_commit.len() && (#[trigger] batch_outcome(
                items,
                rf,
            ).to_commit[i]).chunk_id == chunk && batch_outcome(items, rf).to_commit[i].nodes.len()
                < rf,
        batch_outcome(items, rf).rejected == items.filter(|r: ReportedSpec| !r.live).len(),
    decreases items.len(),
{
    reveal(Seq::filter);
    if items.len() > 0 {
        let init = items.drop_last();
        a_batch_knows_what_is_under_replicated(init, rf, chunk);
        batch_stores_each_chunk_once(init, rf);
        batch_stores_each_chunk_once(items, rf);
        let sofar = batch_outcome(init, rf);
        let r = items.last();
        let out = batch_outcome(items, rf);
        let named = r.location.chunk_id;
        first_naming_is_first(sofar.to_commit, named);
        without_chunk_members(sofar.under_replicated, named, chunk);
        let u0 = sofar.under_replicated;
        let u = out.under_replicated;
        if u0.contains(chunk) && u == u0.push(named) {
            let k = choose|k: int| 0 <= k < u0.len() && u0[k] == chunk;
            assert(u[k] == chunk);
        }
        if u.contains(chunk) && u == u0.push(named) && chunk != named {
            let k = choose|k: int| 0 <= k < u.len() && u[k] == chunk;
            assert(u0[k] == chunk);
        }
        if u == u0.push(named) {
            assert(u[u0.len() as int] == named);
        }
        if out.to_commit != sofar.to_commit {
            let p = match first_naming(sofar.to_commit, named) {
                Some(i) => i,
                None => sofar.to_commit.len() as int,
            };
            assert(out.to_commit[p].chunk_id == named);
            if chunk == named {
                assert forall|i: int|
                    0 <= i < out.to_commit.len() && (#[trigger] out.to_commit[i]).chunk_id
                        == chunk implies i == p by {
                    if i < p {
                        assert(out.to_commit[i].chunk_id != out.to_commit[p].chunk_id);
                    } else if i > p {
                        assert(out.to_commit[p].chunk_id != out.to_commit[i].chunk_id);
                    }
                }
            } else {
                if exists|i: int|
                    0 <= i < sofar.to_commit.len() && (#[trigger] sofar.to_commit[i]).chunk_id
                        == chunk && sofar.to_commit[i].nodes.len() < rf {
                    let i = choose|i: int|
                        0 <= i < sofar.to_commit.len() && (#[trigger] sofar.to_commit[i]).chunk_id
                            == chunk && sofar.to_commit[i].nodes.len() < rf;
                    assert(out.to_commit[i] == sofar.to_commit[i]);
                }
                if exists|i: int|
                    0 <= i < out.to_commit.len() && (#[trigger] out.to_commit[i]).chunk_id == chunk
                        && out.to_commit[i].nodes.len() < rf {
                    let i = choose|i: int|
                        0 <= i < out.to_commit.len() && (#[trigger] out.to_commit[i]).chunk_id
                            == chunk && out.to_commit[i].nodes.len() < rf;
                    assert(out.to_commit[i] == sofar.to_commit[i]);
                }
            }
        }
    }
}

/// Of the chunks with too few replicas just those are healed that are no patch tokens.
pub proof fn tokens_are_not_healed(under: Seq<ChunkId>, is_token: Seq<bool>, chunk: ChunkId)
    requires
        under.len() == is_token.len(),
    ensures
        heal_after_batch(under, is_token).contains(chunk) <==> exists|i: int|
            0 <= i < under.len() && #[trigger] under[i] == chunk && !is_token[i],
    decreases under.len(),
{
    if under.len() > 0 {
        let init = under.drop_last();
        let t0 = is_token.drop_last();
        tokens_are_not_healed(init, t0, chunk);
        let h0 = heal_after_batch(init, t0);
        let h = heal_after_batch(under, is_token);
        if h.contains(chunk) {
            let k = choose|k: int| 0 <= k < h.len() && h[k] == chunk;
            if k < h0.len() {
                assert(h0[k] == chunk);
                let i = choose|i: int|
                    0 <= i < init.len() && #[trigger] init[i] == chunk && !t0[i];
                assert(under[i] == chunk && !is_token[i]);
            } else {
                assert(under[under.len() - 1] == chunk && !is_token[under.len() - 1]);
            }
        }
        if exists|i: int| 0 <= i < under.len() && #[trigger] under[i] == chunk && !is_token[i] {
            let i = choose|i: int|
                0 <= i < under.len() && #[trigger] under[i] == chunk && !is_token[i];
            if i < init.len() {
                assert(init[i] == chunk && !t0[i]);
                let k = choose|k: int| 0 <= k < h0.len() && h0[k] == chunk;
                assert(h[k] == chunk);
            } else {
                assert(h[h.len() - 1] == chunk);
            }
        }
    }
}

// ---------------------------------------------------------------------------
// What is told.
// ---------------------------------------------------------------------------

/// A chunk is confirmed as needed just where it was asked for and some file record, some entry of
/// the chunk map or some pending patch names it.
pub proof fn just_the_chunks_in_use_are_needed(
    chunks: Seq<ChunkId>,
    in_files: Seq<ChunkId>,
    map: Map<u128, FileEntry>,
    in_patches: Seq<ChunkId>,
    chunk: ChunkId,
)
    ensures
        needed_among(chunks, in_files, map, in_patches).contains(chunk) <==> chunks.contains(chunk)
            && (in_files.contains(chunk) || in_patches.contains(chunk) || exists|f: u128, i: int|
            map.dom().contains(f) && 0 <= i < map[f].0.len() && (
            #[trigger] map[f].0[i]).chunk_id == chunk),
{
    let needed = |c: ChunkId| crate::locations::is_needed(c, in_files, map, in_patches);
    filter_members(chunks, needed, chunk);
    if crate::chunk_map::named_by_some(map, chunk) {
        let f = choose|f: u128|
            map.dom().contains(f) && first_naming((#[trigger] map[f]).0, chunk) is Some;
        first_naming_is_first(map[f].0, chunk);
        assert(map[f].0[first_naming(map[f].0, chunk)->0].chunk_id == chunk);
    }
    if exists|f: u128, i: int|
        map.dom().contains(f) && 0 <= i < map[f].0.len() && (#[trigger] map[f].0[i]).chunk_id
            == chunk {
        let (f, i) = choose|f: u128, i: int|
            map.dom().contains(f) && 0 <= i < map[f].0.len() && (#[trigger] map[f].0[i]).chunk_id
                == chunk;
        first_naming_is_first(map[f].0, chunk);
        assert(first_naming(map[f].0, chunk) is Some);
    }
}

/// A filtered list has just the items that meet the condition.
pub(crate) proof fn filter_members<A>(s: Seq<A>, p: spec_fn(A) -> bool, a: A)
    ensures
        s.filter(p).contains(a) <==> s.contains(a) && p(a),
    decreases s.len(),
{
    reveal(Seq::filter);
    if s.len() > 0 {
        let init = s.drop_last();
        filter_members(init, p, a);
        let f0 = init.filter(p);
        let f = s.filter(p);
        if s.contains(a) {
            let k = choose|k: int| 0 <= k < s.len() && s[k] == a;
            if k < init.len() {
                assert(init[k] == a);
            }
        }
        if init.contains(a) {
            let k = choose|k: int| 0 <= k < init.len() && init[k] == a;
            assert(s[k] == a);
        }
        if f0.contains(a) {
            let k = choose|k: int| 0 <= k < f0.len() && f0[k] == a;
            assert(f[k] == a);
        }
        if f.contains(a) {
            let k = choose|k: int| 0 <= k < f.len() && f[k] == a;
            if k < f0.len() {
                assert(f0[k] == a);
            } else {
                assert(s[s.len() - 1] == a);
            }
        }
        if s.last() == a && p(a) {
            assert(f[f.len() - 1] == a);
        }
    }
}

/// A chunk is reported where its own record says, if that names two nodes or more, or as many as
/// the file's record; where the file's record says otherwise. Nothing else of it changes.
pub proof fn the_better_record_names_the_nodes(inline: Loc, record: Loc)
    ensures
        record.nodes.len() >= 2 ==> reported_nodes(inline, record).nodes == record.nodes,
        record.nodes.len() >= inline.nodes.len() ==> reported_nodes(inline, record).nodes
            == record.nodes,
        record.nodes.len() < 2 && record.nodes.len() < inline.nodes.len() ==> reported_nodes(
            inline,
            record,
        ).nodes == inline.nodes,
        reported_nodes(inline, record) == (Loc {
            nodes: reported_nodes(inline, record).nodes,
            ..inline
        }),
{
}

/// Administrators are told of every location, place by place: with the nodes of the chunk that
/// its content was folded into where there is one, else with those that the better record names.
pub proof fn administrators_see_every_location(
    list: Seq<Loc>,
    folded: Seq<Option<Loc>>,
    records: Seq<Option<Loc>>,
    i: int,
)
    requires
        0 <= i < list.len(),
    ensures
        info_locations(list, folded, records).len() == list.len(),
        info_locations(list, folded, records)[i] == (Loc {
            nodes: info_locations(list, folded, records)[i].nodes,
            ..list[i]
        }),
        folded[i] is Some ==> info_locations(list, folded, records)[i].nodes
            == folded[i]->0.nodes,
        folded[i] is None && records[i] is None ==> info_locations(list, folded, records)[i].nodes
            == list[i].nodes,
        folded[i] is None && records[i] is Some && (records[i]->0.nodes.len() >= 2
            || records[i]->0.nodes.len() >= list[i].nodes.len()) ==> info_locations(
            list,
            folded,
            records,
        )[i].nodes == records[i]->0.nodes,
        folded[i] is None && records[i] is Some && records[i]->0.nodes.len() < 2
            && records[i]->0.nodes.len() < list[i].nodes.len() ==> info_locations(
            list,
            folded,
            records,
        )[i].nodes == list[i].nodes,
{
}

/// A window of `count` slots from `from` on holds just the locations whose slot, the number of
/// whole chunks of four mebibytes before them, is `from` or more and less than `from + count`;
/// those without a place count as the first slot, and the last slot number there is lies in no
/// window. Each location comes as often as it is listed, with the nodes of its own record where
/// that names two or more, or as many as the list does.
pub proof fn a_window_holds_just_its_slots(
    list: Seq<Loc>,
    records: Seq<Option<Loc>>,
    from: u32,
    count: u32,
    l: Loc,
)
    requires
        records.len() == list.len(),
    ensures
        windowed(list, records, from, count).contains(l) <==> exists|i: int|
            {
                let slot = match (#[trigger] list[i]).file_offset {
                    Some(o) => (o / 4194304) as u32,
                    None => 0u32,
                };
                &&& 0 <= i < list.len()
                &&& from <= slot < from + count
                &&& slot < u32::MAX
                &&& l == (Loc { nodes: l.nodes, ..list[i] })
                &&& l.nodes == (if records[i] is Some && (records[i]->0.nodes.len() >= 2
                    || records[i]->0.nodes.len() >= list[i].nodes.len()) {
                    records[i]->0.nodes
                } else {
                    list[i].nodes
                })
            },
        windowed(list, records, from, count).len() == list.filter(
            |x: Loc|
                {
                    let slot = match x.file_offset {
                        Some(o) => (o / 4194304) as u32,
                        None => 0u32,
                    };
                    from <= slot < from + count && slot < u32::MAX
                },
        ).len(),
    decreases list.len(),
{
    reveal(Seq::filter);
    if list.len() > 0 {
        let init = list.drop_last();
        let r0 = records.drop_last();
        let last = list.len() - 1;
        a_window_holds_just_its_slots(init, r0, from, count, l);
        let w0 = windowed(init, r0, from, count);
        let w = windowed(list, records, from, count);
        if w.contains(l) {
            let k = choose|k: int| 0 <= k < w.len() && w[k] == l;
            if k < w0.len() {
                assert(w0[k] == l);
                assert(w0.contains(l));
                let i = choose|i: int|
                    {
                        let slot = match (#[trigger] init[i]).file_offset {
                            Some(o) => (o / 4194304) as u32,
                            None => 0u32,
                        };
                        &&& 0 <= i < init.len()
                        &&& from <= slot < from + count
                        &&& slot < u32::MAX
                        &&& l == (Loc { nodes: l.nodes, ..init[i] })
                        &&& l.nodes == (if r0[i] is Some && (r0[i]->0.nodes.len() >= 2
                            || r0[i]->0.nodes.len() >= init[i].nodes.len()) {
                            r0[i]->0.nodes
                        } else {
                            init[i].nodes
                        })
                    };
                assert(list[i] == init[i] && records[i] == r0[i]);
            } else {
                assert(list[last] == list.last());
            }
        }
        if exists|i: int|
            {
                let slot = match (#[trigger] list[i]).file_offset {
                    Some(o) => (o / 4194304) as u32,
                    None => 0u32,
                };
                &&& 0 <= i < list.len()
                &&& from <= slot < from + count
                &&& slot < u32::MAX
                &&& l == (Loc { nodes: l.nodes, ..list[i] })
                &&& l.nodes == (if records[i] is Some && (records[i]->0.nodes.len() >= 2
                    || records[i]->0.nodes.len() >= list[i].nodes.len()) {
                    records[i]->0.nodes
                } else {
                    list[i].nodes
                })
            } {
            let i = choose|i: int|
                {
                    let slot = match (#[trigger] list[i]).file_offset {
                        Some(o) => (o / 4194304) as u32,
                        None => 0u32,
                    };
                    &&& 0 <= i < list.len()
                    &&& from <= slot < from + count
                    &&& slot < u32::MAX
                    &&& l == (Loc { nodes: l.nodes, ..list[i] })
                    &&& l.nodes == (if records[i] is Some && (records[i]->0.nodes.len() >= 2
                        || records[i]->0.nodes.len() >= list[i].nodes.len()) {
                        records[i]->0.nodes
                    } else {
                        list[i].nodes
                    })
                };
            if i < last {
                assert(init[i] == list[i] && r0[i] == records[i]);
                assert(w0.contains(l));
                let k = choose|k: int| 0 <= k < w0.len() && w0[k] == l;
                assert(w[k] == l);
            } else {
                assert(w[w.len() - 1] == l);
            }
        }
    }
}

/// Two windows of which the second begins where the first ends hold together just what one
/// window over both holds, each location once.
pub proof fn adjoining_windows_make_one(
    list: Seq<Loc>,
    records: Seq<Option<Loc>>,
    from: u32,
    a: u32,
    b: u32,
)
    requires
        records.len() == list.len(),
        from + a + b <= u32::MAX,
    ensures
        windowed(list, records, from, a).to_multiset().add(
            windowed(list, records, (from + a) as u32, b).to_multiset(),
        ) =~= windowed(list, records, from, (a + b) as u32).to_multiset(),
    decreases list.len(),
{
    broadcast use vstd::seq_lib::group_to_multiset_ensures;

    let first = windowed(list, records, from, a);
    let second = windowed(list, records, (from + a) as u32, b);
    let both = windowed(list, records, from, (a + b) as u32);
    if list.len() > 0 {
        let init = list.drop_last();
        let r0 = records.drop_last();
        adjoining_windows_make_one(init, r0, from, a, b);
        let f0 = windowed(init, r0, from, a);
        let s0 = windowed(init, r0, (from + a) as u32, b);
        let b0 = windowed(init, r0, from, (a + b) as u32);
        let l = match records.last() {
            Some(r) => reported_nodes(list.last(), r),
            None => list.last(),
        };
        assert(first == f0 || first == f0.push(l));
        assert(f0.push(l).to_multiset() =~= f0.to_multiset().insert(l));
        assert(s0.push(l).to_multiset() =~= s0.to_multiset().insert(l));
        assert(b0.push(l).to_multiset() =~= b0.to_multiset().insert(l));
    }
}

proof fn highest_slot_is_highest(list: Seq<Loc>)
    ensures
        forall|i: int|
            0 <= i < list.len() && (#[trigger] list[i]).file_offset is Some ==> highest_slot(
                list,
            ) is Some && (list[i].file_offset->0 / 4194304) as u32 <= highest_slot(list)->0,
        highest_slot(list) is Some ==> exists|i: int|
            0 <= i < list.len() && (#[trigger] list[i]).file_offset is Some && (
            list[i].file_offset->0 / 4194304) as u32 == highest_slot(list)->0,
    decreases list.len(),
{
    if list.len() > 0 {
        let init = list.drop_last();
        let last = list.len() - 1;
        highest_slot_is_highest(init);
        assert forall|i: int|
            0 <= i < list.len() && (#[trigger] list[i]).file_offset is Some implies highest_slot(
            list,
        ) is Some && (list[i].file_offset->0 / 4194304) as u32 <= highest_slot(list)->0 by {
            if i < last {
                assert(init[i] == list[i]);
            }
        }
        if highest_slot(list) is Some {
            if list.last().file_offset is Some && (list.last().file_offset->0 / 4194304) as u32
                == highest_slot(list)->0 {
                assert(list[last].file_offset is Some);
            } else {
                let i = choose|i: int|
                    0 <= i < init.len() && (#[trigger] init[i]).file_offset is Some && (
                    init[i].file_offset->0 / 4194304) as u32 == highest_slot(init)->0;
                assert(list[i] == init[i]);
            }
        }
    }
}

/// The last slot of a list is the highest that one of its locations with a place has; where none
/// has a place, it is the one that the last location would have by its number.
pub proof fn the_last_slot_is_the_highest(list: Seq<Loc>, i: int)
    ensures
        0 <= i < list.len() && list[i].file_offset is Some ==> (list[i].file_offset->0
            / 4194304) as u32 <= last_slot(list) && exists|k: int|
            0 <= k < list.len() && (#[trigger] list[k]).file_offset is Some && (
            list[k].file_offset->0 / 4194304) as u32 == last_slot(list),
        (forall|k: int| 0 <= k < list.len() ==> (#[trigger] list[k]).file_offset is None)
            && 0 < list.len() <= u32::MAX ==> last_slot(list) == list.len() - 1,
        list.len() == 0 ==> last_slot(list) == 0,
{
    highest_slot_is_highest(list);
}

/// The window over all slots up to the last holds every location.
pub proof fn the_whole_window_holds_every_location(list: Seq<Loc>, records: Seq<Option<Loc>>)
    requires
        records.len() == list.len(),
        last_slot(list) < u32::MAX,
    ensures
        windowed(list, records, 0, (last_slot(list) + 1) as u32).len() == list.len(),
{
    highest_slot_is_highest(list);
    let whole = (last_slot(list) + 1) as u32;
    assert forall|i: int| 0 <= i < list.len() implies (match (#[trigger] list[i]).file_offset {
        Some(o) => (o / 4194304) as u32,
        None => 0u32,
    }) < whole by {}
    window_takes_all(list, records, whole);
}

proof fn window_takes_all(list: Seq<Loc>, records: Seq<Option<Loc>>, count: u32)
    requires
        records.len() == list.len(),
        forall|i: int|
            0 <= i < list.len() ==> (match (#[trigger] list[i]).file_offset {
                Some(o) => (o / 4194304) as u32,
                None => 0u32,
            }) < count,
    ensures
        windowed(list, records, 0, count).len() == list.len(),
    decreases list.len(),
{
    if list.len() > 0 {
        let init = list.drop_last();
        assert forall|i: int| 0 <= i < init.len() implies (match (
        #[trigger] init[i]).file_offset {
            Some(o) => (o / 4194304) as u32,
            None => 0u32,
        }) < count by {
            assert(init[i] == list[i]);
        }
        window_takes_all(init, records.drop_last(), count);
        assert(list[list.len() - 1] == list.last());
    }
}

/// What the first `pages` windows of `n` slots each hold together.
pub open spec fn paged(
    list: Seq<Loc>,
    records: Seq<Option<Loc>>,
    n: nat,
    pages: nat,
) -> Multiset<Loc>
    decreases pages,
{
    if pages == 0 {
        Multiset::empty()
    } else {
        paged(list, records, n, (pages - 1) as nat).add(
            windowed(list, records, ((pages - 1) * n) as u32, n as u32).to_multiset(),
        )
    }
}

/// A client that asks for one window of `n` slots behind the other, until they reach past the
/// last slot, is told of every location once.
pub proof fn windows_hold_every_location_once(
    list: Seq<Loc>,
    records: Seq<Option<Loc>>,
    n: nat,
    pages: nat,
)
    requires
        records.len() == list.len(),
        pages * n <= u32::MAX,
        last_slot(list) < pages * n,
    ensures
        paged(list, records, n, pages).len() == list.len(),
{
    broadcast use vstd::seq_lib::group_to_multiset_ensures;

    paged_is_one_window(list, records, n, pages);
    let count = (pages * n) as u32;
    highest_slot_is_highest(list);
    assert forall|i: int| 0 <= i < list.len() implies (match (#[trigger] list[i]).file_offset {
        Some(o) => (o / 4194304) as u32,
        None => 0u32,
    }) < count by {}
    window_takes_all(list, records, count);
    windowed(list, records, 0, count).to_multiset_ensures();
}

proof fn paged_is_one_window(list: Seq<Loc>, records: Seq<Option<Loc>>, n: nat, pages: nat)
    requires
        records.len() == list.len(),
        pages * n <= u32::MAX,
    ensures
        paged(list, records, n, pages) == windowed(
            list,
            records,
            0,
            (pages * n) as u32,
        ).to_multiset(),
    decreases pages,
{
    broadcast use vstd::seq_lib::group_to_multiset_ensures;

    if pages == 0 {
        assert(pages * n == 0) by (nonlinear_arith)
            requires
                pages == 0,
        ;
        empty_window(list, records);
        assert(windowed(list, records, 0, 0).to_multiset() =~= Multiset::<Loc>::empty());
    } else {
        let before = (pages - 1) as nat;
        assert(before * n + n == pages * n) by (nonlinear_arith)
            requires
                before == pages - 1,
        ;
        assert(before * n >= 0) by (nonlinear_arith);
        paged_is_one_window(list, records, n, before);
        adjoining_windows_make_one(list, records, 0, (before * n) as u32, n as u32);
        assert(((before * n) as u32 + n as u32) as u32 == (pages * n) as u32);
    }
}

proof fn empty_window(list: Seq<Loc>, records: Seq<Option<Loc>>)
    requires
        records.len() == list.len(),
    ensures
        windowed(list, records, 0, 0) =~= Seq::<Loc>::empty(),
    decreases list.len(),
{
    if list.len() > 0 {
        empty_window(list.drop_last(), records.drop_last());
    }
}

// ---------------------------------------------------------------------------
// The file's own record.
// ---------------------------------------------------------------------------

/// A report on a file's chunk takes the place `j`, the first in the file's record of the same
/// chunk of four mebibytes, just where it names the same chunk or does not come from an earlier
/// write: by client write sequence where either side has one, one with a sequence counting
/// before one without, and by time where neither has. No other place changes.
pub proof fn a_report_replaces_no_later_write(list: Seq<Loc>, report: Loc, j: int)
    requires
        report.file_offset is Some,
        0 <= j < list.len(),
        list[j].file_offset is Some,
        list[j].file_offset->0 / 4194304 == report.file_offset->0 / 4194304,
        forall|m: int|
            0 <= m < j && (#[trigger] list[m]).file_offset is Some ==> list[m].file_offset->0
                / 4194304 != report.file_offset->0 / 4194304,
    ensures
        ({
            let out = reported_into(list, report);
            let held = list[j];
            let t = match report.written_at {
                Some(t) => t,
                None => 0,
            };
            let h = match held.written_at {
                Some(h) => h,
                None => 0,
            };
            &&& out.len() == list.len()
            &&& forall|m: int| 0 <= m < list.len() && m != j ==> out[m] == #[trigger] list[m]
            &&& held.chunk_id == report.chunk_id ==> out[j] == report
            &&& held.chunk_id != report.chunk_id && report.client_write_seq is Some
                && held.client_write_seq is Some ==> out[j] == if report.client_write_seq->0
                >= held.client_write_seq->0 {
                report
            } else {
                held
            }
            &&& held.chunk_id != report.chunk_id && report.client_write_seq is Some
                && held.client_write_seq is None ==> out[j] == report
            &&& held.chunk_id != report.chunk_id && report.client_write_seq is None
                && held.client_write_seq is Some ==> out[j] == held
            &&& held.chunk_id != report.chunk_id && report.client_write_seq is None
                && held.client_write_seq is None ==> out[j] == if t >= h {
                report
            } else {
                held
            }
        }),
{
    let slot = report.slot()->0;
    first_filling_is_first(list, slot);
    match first_filling(list, slot) {
        Some(i) => {
            if i < j {
                assert(list[i].slot() == Some(slot));
                assert(list[i].file_offset->0 / 4194304 != report.file_offset->0 / 4194304);
            }
            if j < i {
                assert(list[j].slot() == Some(slot));
            }
        },
        None => {
            assert(list[j].slot() == Some(slot));
        },
    }
}

/// A report on a place that the file's record has nothing for is added to it.
pub proof fn a_report_on_a_new_place_is_added(list: Seq<Loc>, report: Loc)
    requires
        report.file_offset is Some,
        forall|m: int|
            0 <= m < list.len() && (#[trigger] list[m]).file_offset is Some
                ==> list[m].file_offset->0 / 4194304 != report.file_offset->0 / 4194304,
    ensures
        reported_into(list, report) == list.push(report),
{
    first_filling_is_first(list, report.slot()->0);
}

/// A file's record takes in just the reports on the file that say where in it their chunk is, one
/// after the other.
pub proof fn just_placed_reports_on_the_file_count(
    list: Seq<Loc>,
    file: FileId,
    reports: Seq<Loc>,
    report: Loc,
)
    ensures
        report.file_id != Some(file) || report.file_offset is None ==> record_reported(
            list,
            file,
            reports.push(report),
        ) == record_reported(list, file, reports),
        report.file_id == Some(file) && report.file_offset is Some ==> record_reported(
            list,
            file,
            reports.push(report),
        ) == reported_into(record_reported(list, file, reports), report),
        record_reported(list, file, Seq::empty()) == list,
{
    assert(reports.push(report).drop_last() =~= reports);
}

} // verus!
