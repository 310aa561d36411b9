//! What a repair makes of a file, in terms of what the replicas reported.
use vstd::prelude::*;

use crate::repair::{
    asked_for_sizes, chunk_end, corrupt, ends_fit, file_end, grace_over, is_majority, is_verdict,
    judged_size, online_count, outvotes, report_of, size_repaired, votes_for, votes_on,
    with_dissent, without_nodes, ReplicaCheck, Verdict,
};
use crate::types::{ChunkId, FileRec, Loc, NodeId, NodeInfo, NodeStatus};

verus! {

/// A size has as many votes as it occurs among them.
pub proof fn votes_are_counted(votes: Seq<u64>, size: u64)
    ensures
        votes_for(votes, size) == votes.to_multiset().count(size),
    decreases votes.len(),
{
    broadcast use vstd::seq_lib::group_to_multiset_ensures;

    if votes.len() > 0 {
        votes_are_counted(votes.drop_last(), size);
        assert(votes =~= votes.drop_last().push(votes.last()));
    }
}

/// The majority is the size with the most votes, and the largest of those where several have as
/// many.
pub proof fn the_majority_has_the_most_votes(votes: Seq<u64>, size: u64)
    ensures
        is_majority(votes, size) <==> votes.contains(size) && forall|other: u64|
            (#[trigger] votes.to_multiset().count(other)) < votes.to_multiset().count(size) || (
            votes.to_multiset().count(other) == votes.to_multiset().count(size) && other <= size),
{
    broadcast use vstd::seq_lib::group_to_multiset_ensures;

    votes_are_counted(votes, size);
    if is_majority(votes, size) {
        assert forall|other: u64|
            (#[trigger] votes.to_multiset().count(other)) < votes.to_multiset().count(size) || (
            votes.to_multiset().count(other) == votes.to_multiset().count(size) && other
                <= size) by {
            votes_are_counted(votes, other);
            assert(votes.to_multiset().count(size) > 0);
            if votes.to_multiset().count(other) > 0 {
                assert(votes.contains(other));
                let i = choose|i: int| 0 <= i < votes.len() && votes[i] == other;
                assert(outvotes(votes, size, votes[i]));
            }
        }
    }
    if votes.contains(size) && forall|other: u64|
        (#[trigger] votes.to_multiset().count(other)) < votes.to_multiset().count(size) || (
        votes.to_multiset().count(other) == votes.to_multiset().count(size) && other <= size) {
        assert forall|i: int| 0 <= i < votes.len() implies outvotes(
            votes,
            size,
            #[trigger] votes[i],
        ) by {
            votes_are_counted(votes, votes[i]);
            assert(votes.to_multiset().count(votes[i]) <= votes.to_multiset().count(size));
        }
    }
}

/// The verdict on a chunk is the size that most of its votes name, the largest of those where
/// several have as many; it is unknown where nobody voted, and where that size is none. Some
/// replica disagrees just where a vote names another size.
pub proof fn a_verdict_is_what_most_replicas_have(v: Verdict, votes: Seq<u64>, size: u64)
    requires
        is_verdict(v, votes),
    ensures
        votes.len() == 0 ==> v is Unknown,
        votes.contains(size) && (forall|other: u64|
            (#[trigger] votes.to_multiset().count(other)) < votes.to_multiset().count(size) || (
            votes.to_multiset().count(other) == votes.to_multiset().count(size) && other <= size))
            ==> {
            &&& size == 0 ==> v is Unknown
            &&& size > 0 ==> v is Size && v->size == size && (v->dissent <==> exists|i: int|
                0 <= i < votes.len() && #[trigger] votes[i] != size)
        },
{
    the_majority_has_the_most_votes(votes, size);
    if is_majority(votes, size) {
        match v {
            Verdict::Unknown => {
                if votes.len() > 0 {
                    crate::repair::majority_is_unique(votes, size, 0);
                }
            },
            Verdict::Size { size: s, dissent } => {
                crate::repair::majority_is_unique(votes, size, s);
            },
        }
    }
}

proof fn file_end_is_the_furthest(list: Seq<Loc>, verdicts: Seq<Verdict>)
    requires
        list.len() == verdicts.len(),
        forall|k: int|
            0 <= k < list.len() ==> chunk_end(#[trigger] list[k], k, verdicts[k]) >= 0,
    ensures
        forall|k: int|
            0 <= k < list.len() ==> chunk_end(#[trigger] list[k], k, verdicts[k]) <= file_end(
                list,
                verdicts,
            ),
        list.len() > 0 ==> exists|k: int|
            0 <= k < list.len() && chunk_end(#[trigger] list[k], k, verdicts[k]) == file_end(
                list,
                verdicts,
            ),
        list.len() == 0 ==> file_end(list, verdicts) == 0,
    decreases list.len(),
{
    if list.len() > 0 {
        let l0 = list.drop_last();
        let v0 = verdicts.drop_last();
        let last = list.len() - 1;
        assert forall|k: int| 0 <= k < l0.len() implies chunk_end(
            #[trigger] l0[k],
            k,
            v0[k],
        ) >= 0 by {
            assert(chunk_end(list[k], k, verdicts[k]) >= 0);
        }
        file_end_is_the_furthest(l0, v0);
        assert(chunk_end(list[last], last, verdicts[last]) >= 0);
        assert forall|k: int| 0 <= k < list.len() implies chunk_end(
            #[trigger] list[k],
            k,
            verdicts[k],
        ) <= file_end(list, verdicts) by {
            if k < last {
                assert(chunk_end(l0[k], k, v0[k]) <= file_end(l0, v0));
            }
        }
        if chunk_end(list[last], last, verdicts[last]) < file_end(l0, v0) {
            let k = choose|k: int|
                0 <= k < l0.len() && chunk_end(#[trigger] l0[k], k, v0[k]) == file_end(l0, v0);
            assert(chunk_end(list[k], k, verdicts[k]) == file_end(list, verdicts));
        }
    }
}

/// The size of a repaired file is where the furthest of its chunks ends by what most replicas
/// have of it, whether or not others disagree. `votes` are those on each chunk and `sizes` the
/// sizes that most of them name. A chunk begins at its place, or, where that is not recorded, at
/// as many full chunks as stand before it. A record that has that size already is left alone;
/// any other gets the size and the time, and counts before every other record of the file.
pub proof fn a_repaired_size_is_the_furthest_end(
    rec: FileRec,
    votes: Seq<Seq<u64>>,
    sizes: Seq<u64>,
    verdicts: Seq<Verdict>,
    now_secs: u64,
    end: u64,
)
    requires
        rec.chunk_locations.len() > 0,
        votes.len() == rec.chunk_locations.len(),
        sizes.len() == rec.chunk_locations.len(),
        verdicts.len() == rec.chunk_locations.len(),
        forall|k: int| 0 <= k < verdicts.len() ==> is_verdict(#[trigger] verdicts[k], votes[k]),
        forall|k: int|
            0 <= k < sizes.len() ==> (#[trigger] sizes[k]) > 0 && votes[k].contains(sizes[k]),
        forall|k: int, other: u64|
            0 <= k < sizes.len() ==> (#[trigger] votes[k].to_multiset().count(other))
                < votes[k].to_multiset().count(sizes[k]) || (votes[k].to_multiset().count(other)
                == votes[k].to_multiset().count(sizes[k]) && other <= sizes[k]),
        forall|k: int|
            0 <= k < sizes.len() ==> (match rec.chunk_locations[k].file_offset {
                Some(o) => o as int,
                None => k * 4194304,
            }) + (#[trigger] sizes[k]) <= end,
        exists|k: int|
            0 <= k < sizes.len() && (match rec.chunk_locations[k].file_offset {
                Some(o) => o as int,
                None => k * 4194304,
            }) + (#[trigger] sizes[k]) == end,
    ensures
        end == rec.size ==> size_repaired(rec, verdicts, now_secs) is None,
        end != rec.size ==> size_repaired(rec, verdicts, now_secs) is Some && {
            let out = size_repaired(rec, verdicts, now_secs)->0;
            &&& out.size == end
            &&& out.modified_at == now_secs
            &&& rec.write_seq < u64::MAX ==> out.write_seq == rec.write_seq + 1
            &&& rec.write_seq == u64::MAX ==> out.write_seq == rec.write_seq
            &&& out == (FileRec {
                size: out.size,
                modified_at: out.modified_at,
                write_seq: out.write_seq,
                ..rec
            })
        },
{
    let list = rec.chunk_locations;
    assert forall|k: int| 0 <= k < list.len() implies (#[trigger] verdicts[k]) is Size
        && verdicts[k]->size == sizes[k] by {
        assert(sizes[k] > 0);
        assert forall|other: u64|
            (#[trigger] votes[k].to_multiset().count(other)) < votes[k].to_multiset().count(
                sizes[k],
            ) || (votes[k].to_multiset().count(other) == votes[k].to_multiset().count(sizes[k])
                && other <= sizes[k]) by {}
        a_verdict_is_what_most_replicas_have(verdicts[k], votes[k], sizes[k]);
    }
    assert forall|k: int| 0 <= k < list.len() implies chunk_end(
        #[trigger] list[k],
        k,
        verdicts[k],
    ) == (match list[k].file_offset {
        Some(o) => o as int,
        None => k * 4194304,
    }) + sizes[k] && chunk_end(list[k], k, verdicts[k]) >= 0 && chunk_end(
        list[k],
        k,
        verdicts[k],
    ) <= end by {
        assert(verdicts[k] is Size);
        assert(k * 4194304 >= 0);
        assert(sizes[k] > 0);
    }
    file_end_is_the_furthest(list, verdicts);
    let k = choose|k: int|
        0 <= k < sizes.len() && (match list[k].file_offset {
            Some(o) => o as int,
            None => k * 4194304,
        }) + (#[trigger] sizes[k]) == end;
    assert(chunk_end(list[k], k, verdicts[k]) == end);
    let far = choose|far: int|
        0 <= far < list.len() && chunk_end(#[trigger] list[far], far, verdicts[far]) == file_end(
            list,
            verdicts,
        );
    assert(file_end(list, verdicts) == end);
    assert(end > 0) by {
        assert(sizes[k] > 0);
        assert(k * 4194304 >= 0);
    }
    assert(judged_size(list, verdicts) == Some(end));
}

/// A file keeps its size where one of its chunks cannot be judged: nobody voted on it, or most
/// replicas have no such chunk.
pub proof fn a_size_is_left_alone_where_a_chunk_is_unknown(
    rec: FileRec,
    votes: Seq<Seq<u64>>,
    verdicts: Seq<Verdict>,
    now_secs: u64,
    k: int,
)
    requires
        votes.len() == verdicts.len(),
        0 <= k < verdicts.len(),
        is_verdict(verdicts[k], votes[k]),
        votes[k].len() == 0 || (votes[k].contains(0) && forall|other: u64|
            other != 0 ==> (#[trigger] votes[k].to_multiset().count(other))
                < votes[k].to_multiset().count(0)),
    ensures
        size_repaired(rec, verdicts, now_secs) is None,
{
    a_verdict_is_what_most_replicas_have(verdicts[k], votes[k], 0);
    assert(verdicts[k] == Verdict::Unknown);
}

/// The ends of a file's chunks fit just where none lies past the last byte that a file can have.
pub proof fn ends_fit_below_the_last_byte(
    list: Seq<Loc>,
    verdicts: Seq<Verdict>,
    sizes: Seq<u64>,
)
    requires
        verdicts.len() == list.len(),
        sizes.len() == list.len(),
        forall|k: int|
            0 <= k < verdicts.len() ==> (#[trigger] verdicts[k]) is Size && verdicts[k]->size
                == sizes[k],
    ensures
        ends_fit(list, verdicts) <==> forall|k: int|
            0 <= k < list.len() ==> (match (#[trigger] list[k]).file_offset {
                Some(o) => o as int,
                None => k * 4194304,
            }) + sizes[k] <= u64::MAX,
{
    assert forall|k: int| 0 <= k < list.len() implies chunk_end(
        #[trigger] list[k],
        k,
        verdicts[k],
    ) == (match list[k].file_offset {
        Some(o) => o as int,
        None => k * 4194304,
    }) + sizes[k] by {
        assert(verdicts[k] is Size);
    }
}

/// A chunk is noted for healing just where it was noted before, or some replica of it has
/// another size than most have; none is noted twice that was not.
pub proof fn chunks_with_dissent_are_noted(
    noted: Seq<ChunkId>,
    list: Seq<Loc>,
    verdicts: Seq<Verdict>,
    chunk: ChunkId,
)
    requires
        verdicts.len() == list.len(),
    ensures
        with_dissent(noted, list, verdicts).contains(chunk) <==> noted.contains(chunk) || exists|
            k: int,
        |
            0 <= k < list.len() && (#[trigger] list[k]).chunk_id == chunk && verdicts[k] is Size
                && verdicts[k]->dissent,
        noted.no_duplicates() ==> with_dissent(noted, list, verdicts).no_duplicates(),
    decreases list.len(),
{
    if list.len() > 0 {
        let l0 = list.drop_last();
        let v0 = verdicts.drop_last();
        let last = list.len() - 1;
        chunks_with_dissent_are_noted(noted, l0, v0, chunk);
        let w0 = with_dissent(noted, l0, v0);
        let w = with_dissent(noted, list, verdicts);
        if w0.contains(chunk) {
            let i = choose|i: int| 0 <= i < w0.len() && w0[i] == chunk;
            assert(w[i] == chunk);
        }
        if w.contains(chunk) && !w0.contains(chunk) {
            let i = choose|i: int| 0 <= i < w.len() && w[i] == chunk;
            if i < w0.len() {
                assert(w0[i] == chunk);
            }
            assert(list[last].chunk_id == chunk && verdicts[last] is Size
                && verdicts[last]->dissent);
        }
        if exists|k: int|
            0 <= k < l0.len() && (#[trigger] l0[k]).chunk_id == chunk && v0[k] is Size
                && v0[k]->dissent {
            let k = choose|k: int|
                0 <= k < l0.len() && (#[trigger] l0[k]).chunk_id == chunk && v0[k] is Size
                    && v0[k]->dissent;
            assert(list[k].chunk_id == chunk && verdicts[k] is Size && verdicts[k]->dissent);
        }
        if exists|k: int|
            0 <= k < list.len() && (#[trigger] list[k]).chunk_id == chunk && verdicts[k] is Size
                && verdicts[k]->dissent {
            let k = choose|k: int|
                0 <= k < list.len() && (#[trigger] list[k]).chunk_id == chunk && verdicts[k] is Size
                    && verdicts[k]->dissent;
            if k < last {
                assert(l0[k].chunk_id == chunk && v0[k] is Size && v0[k]->dissent);
                assert(w0.contains(chunk));
            } else if !w0.contains(chunk) {
                assert(w[w.len() - 1] == chunk);
            }
        }
    }
}

proof fn report_of_last(reports: Seq<(NodeId, Vec<u64>)>, r: int)
    requires
        0 <= r < reports.len(),
        forall|m: int| r < m < reports.len() ==> (#[trigger] reports[m]).0 != reports[r].0,
    ensures
        report_of(reports, reports[r].0) == Some(reports[r].1@),
    decreases reports.len(),
{
    if r < reports.len() - 1 {
        let init = reports.drop_last();
        assert(reports[reports.len() - 1].0 != reports[r].0);
        assert forall|m: int| r < m < init.len() implies (#[trigger] init[m]).0 != init[r].0 by {
            assert(reports[m].0 != reports[r].0);
        }
        report_of_last(init, r);
    }
}

proof fn report_of_none(reports: Seq<(NodeId, Vec<u64>)>, node: NodeId)
    ensures
        report_of(reports, node) is None <==> forall|m: int|
            0 <= m < reports.len() ==> (#[trigger] reports[m]).0 != node,
    decreases reports.len(),
{
    if reports.len() > 0 {
        let init = reports.drop_last();
        report_of_none(init, node);
        if report_of(reports, node) is None {
            assert forall|m: int| 0 <= m < reports.len() implies (#[trigger] reports[m]).0
                != node by {
                if m < init.len() {
                    assert(init[m].0 != node);
                }
            }
        }
        if forall|m: int| 0 <= m < reports.len() ==> (#[trigger] reports[m]).0 != node {
            assert(reports[reports.len() - 1].0 != node);
            assert forall|m: int| 0 <= m < init.len() implies (#[trigger] init[m]).0 != node by {
                assert(reports[m].0 != node);
            }
        }
    }
}

/// Each named holder that reported has one vote on a chunk and nobody else has any. The vote is
/// the size that its last report gives for the chunk's place, none where the report ends before.
pub proof fn each_reporting_holder_has_one_vote(
    holders: Seq<NodeId>,
    reports: Seq<(NodeId, Vec<u64>)>,
    place: int,
    r: int,
)
    requires
        place >= 0,
    ensures
        votes_on(holders, reports, place).len() == holders.filter(
            |n: NodeId| exists|m: int| 0 <= m < reports.len() && (#[trigger] reports[m]).0 == n,
        ).len(),
        0 <= r < reports.len() && holders.contains(reports[r].0) && (forall|m: int|
            r < m < reports.len() ==> (#[trigger] reports[m]).0 != reports[r].0) ==> votes_on(
            holders,
            reports,
            place,
        ).contains(
            if place < reports[r].1@.len() {
                reports[r].1@[place]
            } else {
                0
            },
        ),
    decreases holders.len(),
{
    reveal(Seq::filter);
    if holders.len() > 0 {
        let init = holders.drop_last();
        each_reporting_holder_has_one_vote(init, reports, place, r);
        report_of_none(reports, holders.last());
        let v0 = votes_on(init, reports, place);
        let v = votes_on(holders, reports, place);
        if 0 <= r < reports.len() && holders.contains(reports[r].0) && (forall|m: int|
            r < m < reports.len() ==> (#[trigger] reports[m]).0 != reports[r].0) {
            report_of_last(reports, r);
            let size: u64 = if place < reports[r].1@.len() {
                reports[r].1@[place]
            } else {
                0
            };
            let h = choose|h: int| 0 <= h < holders.len() && holders[h] == reports[r].0;
            if h < init.len() {
                assert(init[h] == reports[r].0);
                let k = choose|k: int| 0 <= k < v0.len() && v0[k] == size;
                assert(v[k] == size);
            } else {
                assert(v[v.len() - 1] == size);
            }
        }
    }
}

/// Just the nodes are asked for sizes that are online and named as a holder of some chunk, in
/// order.
pub proof fn just_online_holders_are_asked(nodes: Seq<NodeInfo>, list: Seq<Loc>)
    ensures
        asked_for_sizes(nodes, list) == nodes.filter(
            |n: NodeInfo|
                n.status == NodeStatus::Online && exists|i: int|
                    0 <= i < list.len() && (#[trigger] list[i]).nodes.contains(n.id),
        ).map_values(|n: NodeInfo| n.id),
    decreases nodes.len(),
{
    reveal(Seq::filter);
    let asked = |n: NodeInfo|
        n.status == NodeStatus::Online && exists|i: int|
            0 <= i < list.len() && (#[trigger] list[i]).nodes.contains(n.id);
    let id = |n: NodeInfo| n.id;
    if nodes.len() > 0 {
        just_online_holders_are_asked(nodes.drop_last(), list);
    }
    assert(nodes.filter(asked).map_values(id) =~= asked_for_sizes(nodes, list));
}

/// The nodes that are online are counted, and those of any other status are not.
pub proof fn just_online_nodes_are_counted(nodes: Seq<NodeInfo>)
    ensures
        online_count(nodes) == nodes.filter(|n: NodeInfo| n.status == NodeStatus::Online).len(),
    decreases nodes.len(),
{
    reveal(Seq::filter);
    if nodes.len() > 0 {
        just_online_nodes_are_counted(nodes.drop_last());
    }
}

/// A leader may delete replicas once it has led for the whole grace period, or does not know for
/// how long it has.
pub proof fn grace_is_over_after_its_last_second(since: u64, grace_secs: u64)
    ensures
        grace_over(Some(since), grace_secs) <==> !(since < grace_secs),
        grace_over(None, grace_secs),
{
}

/// Just the replicas that are there and fail their check are corrupt, in order.
pub proof fn just_failing_replicas_are_corrupt(checks: Seq<ReplicaCheck>)
    ensures
        corrupt(checks) == checks.filter(|c: ReplicaCheck| c.found && !c.valid).map_values(
            |c: ReplicaCheck| c.node,
        ),
    decreases checks.len(),
{
    reveal(Seq::filter);
    let bad = |c: ReplicaCheck| c.found && !c.valid;
    let node = |c: ReplicaCheck| c.node;
    if checks.len() > 0 {
        just_failing_replicas_are_corrupt(checks.drop_last());
    }
    assert(checks.filter(bad).map_values(node) =~= corrupt(checks));
}

/// Taking nodes out of a list leaves just the others, in order.
pub proof fn taking_nodes_out_leaves_the_others(nodes: Seq<NodeId>, gone: Seq<NodeId>)
    ensures
        without_nodes(nodes, gone) == nodes.filter(|n: NodeId| !gone.contains(n)),
    decreases nodes.len(),
{
    reveal(Seq::filter);
    if nodes.len() > 0 {
        taking_nodes_out_leaves_the_others(nodes.drop_last(), gone);
    }
}

} // verus!
