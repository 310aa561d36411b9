//! Repairing files: sizes by the vote of the replicas, and corrupt replicas.
use crate::locations::{lists_chunk, lists_node};
use crate::metadata::{chunk_ids, chunk_ids_of, failed, Lookup};
use crate::protocol::Response;
use crate::text::{decimal, decimal_text, join, join_number};
use crate::types::{
    locs, ChunkId, ChunkLocation, ErrorCode, FileId, FileMetadata, FileRec, Loc, NodeId, NodeInfo,
    NodeStatus, CHUNK_SIZE,
};
use vstd::prelude::*;
use vstd::string::StringSliceAdditionalSpecFns;

verus! {

// ---------------------------------------------------------------------------
// Voting on the size of a chunk.
// ---------------------------------------------------------------------------

/// How often a size was voted for.
pub open spec fn votes_for(votes: Seq<u64>, size: u64) -> nat
    decreases votes.len(),
{
    if votes.len() == 0 {
        0
    } else {
        votes_for(votes.drop_last(), size) + if votes.last() == size {
            1nat
        } else {
            0nat
        }
    }
}

/// The first size has the better claim: more votes, or as many and it is larger.
pub open spec fn outvotes(votes: Seq<u64>, a: u64, b: u64) -> bool {
    votes_for(votes, a) > votes_for(votes, b) || (votes_for(votes, a) == votes_for(votes, b) && a
        >= b)
}

/// The size that was voted for and outvotes every other.
pub open spec fn is_majority(votes: Seq<u64>, size: u64) -> bool {
    votes.contains(size) && forall|i: int|
        0 <= i < votes.len() ==> outvotes(votes, size, #[trigger] votes[i])
}

/// There is no more than one such size.
pub proof fn majority_is_unique(votes: Seq<u64>, a: u64, b: u64)
    requires
        is_majority(votes, a),
        is_majority(votes, b),
    ensures
        a == b,
{
    let i = choose|i: int| 0 <= i < votes.len() && votes[i] == a;
    let j = choose|j: int| 0 <= j < votes.len() && votes[j] == b;
    assert(outvotes(votes, a, votes[j]));
    assert(outvotes(votes, b, votes[i]));
}

/// A size that more than half of the replicas report wins, whatever the others report.
pub proof fn true_majority_wins(votes: Seq<u64>, size: u64, winner: u64)
    requires
        2 * votes_for(votes, size) > votes.len(),
        is_majority(votes, winner),
    ensures
        winner == size,
{
    if winner != size {
        two_sizes_share_votes(votes, size, winner);
        votes_for_some(votes, size);
        let i = choose|i: int| 0 <= i < votes.len() && votes[i] == size;
        assert(outvotes(votes, winner, votes[i]));
    }
}

proof fn two_sizes_share_votes(votes: Seq<u64>, a: u64, b: u64)
    requires
        a != b,
    ensures
        votes_for(votes, a) + votes_for(votes, b) <= votes.len(),
    decreases votes.len(),
{
    if votes.len() > 0 {
        two_sizes_share_votes(votes.drop_last(), a, b);
    }
}

proof fn votes_for_some(votes: Seq<u64>, size: u64)
    ensures
        votes_for(votes, size) > 0 <==> votes.contains(size),
    decreases votes.len(),
{
    if votes.len() > 0 {
        let init = votes.drop_last();
        votes_for_some(init, size);
        if init.contains(size) {
            let k = choose|k: int| 0 <= k < init.len() && init[k] == size;
            assert(votes[k] == size);
        }
        if votes.last() == size {
            assert(votes[votes.len() - 1] == size);
        }
        if votes.contains(size) && votes.last() != size {
            let k = choose|k: int| 0 <= k < votes.len() && votes[k] == size;
            assert(init[k] == size);
        }
    }
}

fn count_votes(votes: &Vec<u64>, size: u64) -> (n: usize)
    ensures
        n == votes_for(votes@, size),
{
    let mut n: usize = 0;
    let mut i: usize = 0;
    assert(votes@.take(0) =~= Seq::<u64>::empty());
    while i < votes.len()
        invariant
            i <= votes@.len(),
            n <= i,
            n == votes_for(votes@.take(i as int), size),
        decreases votes@.len() - i,
    {
        proof {
            assert(votes@.take(i + 1).drop_last() =~= votes@.take(i as int));
            assert(votes@.take(i + 1).last() == votes@[i as int]);
        }
        if votes[i] == size {
            n += 1;
        }
        i += 1;
    }
    assert(votes@.take(i as int) =~= votes@);
    n
}

/// Finds the majority, if there are votes.
pub fn majority(votes: &Vec<u64>) -> (r: Option<u64>)
    ensures
        match r {
            Some(s) => is_majority(votes@, s),
            None => votes@.len() == 0,
        },
{
    if votes.len() == 0 {
        return None;
    }
    let mut best: u64 = votes[0];
    let mut best_votes: usize = count_votes(votes, best);
    assert(votes@.contains(best));
    let mut i: usize = 1;
    while i < votes.len()
        invariant
            1 <= i <= votes@.len(),
            votes@.contains(best),
            best_votes == votes_for(votes@, best),
            forall|j: int| 0 <= j < i ==> outvotes(votes@, best, #[trigger] votes@[j]),
        decreases votes@.len() - i,
    {
        let n: usize = count_votes(votes, votes[i]);
        if n > best_votes || (n == best_votes && votes[i] > best) {
            best = votes[i];
            best_votes = n;
            assert(votes@.contains(votes@[i as int]));
        }
        i += 1;
    }
    Some(best)
}

// ---------------------------------------------------------------------------
// Repairing a file's size.
// ---------------------------------------------------------------------------

/// What a node reported: the sizes of the file's chunks on its disk, in the order of the file's
/// locations.
pub open spec fn report_of(reports: Seq<(NodeId, Vec<u64>)>, node: NodeId) -> Option<Seq<u64>>
    decreases reports.len(),
{
    if reports.len() == 0 {
        None
    } else if reports.last().0 == node {
        Some(reports.last().1@)
    } else {
        report_of(reports.drop_last(), node)
    }
}

/// The size that a node reports for the chunk at a place; a chunk that it says nothing of counts
/// as absent.
pub open spec fn reported_size(sizes: Seq<u64>, place: int) -> u64 {
    if 0 <= place < sizes.len() {
        sizes[place]
    } else {
        0
    }
}

/// The votes on the size of the chunk at a place: one of each named holder that reported.
pub open spec fn votes_on(
    holders: Seq<NodeId>,
    reports: Seq<(NodeId, Vec<u64>)>,
    place: int,
) -> Seq<u64>
    decreases holders.len(),
{
    if holders.len() == 0 {
        Seq::empty()
    } else {
        let sofar = votes_on(holders.drop_last(), reports, place);
        match report_of(reports, holders.last()) {
            Some(sizes) => sofar.push(reported_size(sizes, place)),
            None => sofar,
        }
    }
}

/// What the replicas say of a chunk: nothing that can be used, or its size, and whether some of
/// them disagree.
#[derive(Clone, Copy, Debug, PartialEq, Eq, Structural)]
pub enum Verdict {
    Unknown,
    Size { size: u64, dissent: bool },
}

/// The verdict follows from the votes: unknown where nobody voted or the majority has no such
/// chunk.
pub open spec fn is_verdict(v: Verdict, votes: Seq<u64>) -> bool {
    match v {
        Verdict::Unknown => votes.len() == 0 || is_majority(votes, 0),
        Verdict::Size { size, dissent } => size > 0 && is_majority(votes, size) && dissent == (
        exists|i: int| 0 <= i < votes.len() && #[trigger] votes[i] != size),
    }
}

fn find_report(reports: &Vec<(NodeId, Vec<u64>)>, node: NodeId) -> (r: Option<usize>)
    ensures
        match r {
            Some(i) => i < reports@.len() && report_of(reports@, node) == Some(reports@[i as int].1@),
            None => report_of(reports@, node) is None,
        },
{
    let mut found: Option<usize> = None;
    let mut i: usize = 0;
    assert(reports@.take(0) =~= Seq::<(NodeId, Vec<u64>)>::empty());
    while i < reports.len()
        invariant
            i <= reports@.len(),
            match found {
                Some(k) => k < i && report_of(reports@.take(i as int), node) == Some(
                    reports@[k as int].1@,
                ),
                None => report_of(reports@.take(i as int), node) is None,
            },
        decreases reports@.len() - i,
    {
        proof {
            assert(reports@.take(i + 1).drop_last() =~= reports@.take(i as int));
            assert(reports@.take(i + 1).last() == reports@[i as int]);
        }
        if reports[i].0 == node {
            found = Some(i);
        }
        i += 1;
    }
    assert(reports@.take(i as int) =~= reports@);
    found
}

/// Collects the votes on a chunk.
pub fn collect_votes(holders: &Vec<NodeId>, reports: &Vec<(NodeId, Vec<u64>)>, place: usize) -> (r:
    Vec<u64>)
    ensures
        r@ == votes_on(holders@, reports@, place as int),
{
    let mut out: Vec<u64> = Vec::new();
    let mut i: usize = 0;
    assert(holders@.take(0) =~= Seq::<NodeId>::empty());
    while i < holders.len()
        invariant
            i <= holders@.len(),
            out@ == votes_on(holders@.take(i as int), reports@, place as int),
        decreases holders@.len() - i,
    {
        proof {
            assert(holders@.take(i + 1).drop_last() =~= holders@.take(i as int));
            assert(holders@.take(i + 1).last() == holders@[i as int]);
        }
        match find_report(reports, holders[i]) {
            Some(k) => {
                let sizes: &Vec<u64> = &reports[k].1;
                if place < sizes.len() {
                    out.push(sizes[place]);
                } else {
                    out.push(0);
                }
            },
            None => {},
        }
        i += 1;
    }
    assert(holders@.take(i as int) =~= holders@);
    out
}

/// Judges a chunk by its votes.
pub fn judge(votes: &Vec<u64>) -> (r: Verdict)
    ensures
        is_verdict(r, votes@),
{
    match majority(votes) {
        None => Verdict::Unknown,
        Some(size) => {
            if size == 0 {
                return Verdict::Unknown;
            }
            let mut dissent: bool = false;
            let mut i: usize = 0;
            while i < votes.len()
                invariant
                    i <= votes@.len(),
                    dissent == exists|j: int| 0 <= j < i && #[trigger] votes@[j] != size,
                decreases votes@.len() - i,
            {
                if votes[i] != size {
                    dissent = true;
                    assert(votes@[i as int] != size);
                }
                i += 1;
            }
            Verdict::Size { size, dissent }
        },
    }
}

/// Where a chunk begins: at its place, or, if that is unknown, where the chunks before it would
/// end if all of them were full.
pub open spec fn chunk_start(l: Loc, place: int) -> int {
    match l.file_offset {
        Some(o) => o as int,
        None => place * CHUNK_SIZE,
    }
}

/// Where a chunk ends by its verdict; what its record says counts if there is none.
pub open spec fn chunk_end(l: Loc, place: int, v: Verdict) -> int {
    chunk_start(l, place) + match v {
        Verdict::Size { size, .. } => size as int,
        Verdict::Unknown => l.size as int,
    }
}

/// The end of the file by the verdicts: the furthest end of its chunks. Gaps between the chunks
/// count.
pub open spec fn file_end(list: Seq<Loc>, verdicts: Seq<Verdict>) -> int
    decreases list.len(),
{
    if list.len() == 0 {
        0
    } else {
        let sofar = file_end(list.drop_last(), verdicts.drop_last());
        let here = chunk_end(list.last(), list.len() - 1, verdicts.last());
        if here >= sofar {
            here
        } else {
            sofar
        }
    }
}

/// No chunk ends past the last byte that a file can have.
pub open spec fn ends_fit(list: Seq<Loc>, verdicts: Seq<Verdict>) -> bool {
    forall|k: int|
        0 <= k < list.len() ==> chunk_end(#[trigger] list[k], k, verdicts[k]) <= u64::MAX
            && chunk_start(list[k], k) <= u64::MAX
}

/// The chunks of which some replica disagrees, each once, in order, behind those already noted.
pub open spec fn with_dissent(
    noted: Seq<ChunkId>,
    list: Seq<Loc>,
    verdicts: Seq<Verdict>,
) -> Seq<ChunkId>
    decreases list.len(),
{
    if list.len() == 0 {
        noted
    } else {
        let sofar = with_dissent(noted, list.drop_last(), verdicts.drop_last());
        match verdicts.last() {
            Verdict::Size { size, dissent } => if dissent && !sofar.contains(
                list.last().chunk_id,
            ) {
                sofar.push(list.last().chunk_id)
            } else {
                sofar
            },
            Verdict::Unknown => sofar,
        }
    }
}

/// The verdicts on every chunk of a file.
pub fn judge_file(list: &Vec<ChunkLocation>, reports: &Vec<(NodeId, Vec<u64>)>) -> (r: Vec<Verdict>)
    ensures
        r@.len() == list@.len(),
        forall|k: int|
            0 <= k < r@.len() ==> is_verdict(
                #[trigger] r@[k],
                votes_on(locs(list@)[k].nodes, reports@, k),
            ),
{
    let mut out: Vec<Verdict> = Vec::new();
    let mut i: usize = 0;
    while i < list.len()
        invariant
            i <= list@.len(),
            out@.len() == i,
            forall|k: int|
                0 <= k < i ==> is_verdict(
                    #[trigger] out@[k],
                    votes_on(locs(list@)[k].nodes, reports@, k),
                ),
        decreases list@.len() - i,
    {
        let votes: Vec<u64> = collect_votes(&list[i].nodes, reports, i);
        assert(locs(list@)[i as int] == list@[i as int]@);
        out.push(judge(&votes));
        i += 1;
    }
    out
}

/// Whether the verdicts make up a size that a file can have.
pub fn ends_fit_exec(list: &Vec<ChunkLocation>, verdicts: &Vec<Verdict>) -> (r: bool)
    requires
        list@.len() == verdicts@.len(),
    ensures
        r == ends_fit(locs(list@), verdicts@),
{
    let ghost ls = locs(list@);
    let mut i: usize = 0;
    while i < list.len()
        invariant
            i <= list@.len(),
            ls == locs(list@),
            list@.len() == verdicts@.len(),
            forall|k: int|
                0 <= k < i ==> chunk_end(#[trigger] ls[k], k, verdicts@[k]) <= u64::MAX
                    && chunk_start(ls[k], k) <= u64::MAX,
        decreases list@.len() - i,
    {
        assert(ls[i as int] == list@[i as int]@);
        let start: u128 = match list[i].file_offset {
            Some(o) => o as u128,
            None => {
                assert(i as u128 * CHUNK_SIZE as u128 <= u64::MAX as u128 * 4194304) by (
                nonlinear_arith)
                    requires
                        i <= u64::MAX,
                        CHUNK_SIZE == 4194304u64,
                ;
                i as u128 * CHUNK_SIZE as u128
            },
        };
        let size: u128 = match verdicts[i] {
            Verdict::Size { size, .. } => size as u128,
            Verdict::Unknown => list[i].size as u128,
        };
        assert(start + size == chunk_end(ls[i as int], i as int, verdicts@[i as int]));
        if start + size > u64::MAX as u128 {
            return false;
        }
        i += 1;
    }
    true
}

/// The file's size by the verdicts; none if one of its chunks cannot be judged.
pub open spec fn judged_size(list: Seq<Loc>, verdicts: Seq<Verdict>) -> Option<u64> {
    if exists|k: int| 0 <= k < verdicts.len() && #[trigger] verdicts[k] == Verdict::Unknown {
        None
    } else {
        Some(file_end(list, verdicts) as u64)
    }
}

/// The record with the size that its replicas agree on; none if it is right already, or cannot
/// be judged, or nothing is left of the file.
pub open spec fn size_repaired(rec: FileRec, verdicts: Seq<Verdict>, now_secs: u64) -> Option<
    FileRec,
> {
    match judged_size(rec.chunk_locations, verdicts) {
        Some(size) => if size != rec.size && size > 0 {
            Some(
                FileRec {
                    size: size,
                    modified_at: now_secs,
                    write_seq: if rec.write_seq < u64::MAX {
                        (rec.write_seq + 1) as u64
                    } else {
                        u64::MAX
                    },
                    ..rec
                },
            )
        } else {
            None
        },
        None => None,
    }
}

/// The repaired size reaches to the end of every chunk.
pub proof fn judged_size_covers_every_chunk(list: Seq<Loc>, verdicts: Seq<Verdict>, k: int)
    requires
        list.len() == verdicts.len(),
        0 <= k < list.len(),
    ensures
        file_end(list, verdicts) >= chunk_end(list[k], k, verdicts[k]),
    decreases list.len(),
{
    if k < list.len() - 1 {
        judged_size_covers_every_chunk(list.drop_last(), verdicts.drop_last(), k);
    }
}

/// Repairs a file's size by the verdicts on its chunks, and notes the chunks of which a replica
/// disagrees, which are to be healed.
pub fn repair_size(
    file: &FileMetadata,
    verdicts: &Vec<Verdict>,
    noted: Vec<ChunkId>,
    now_secs: u64,
) -> (r: (Option<FileMetadata>, Vec<ChunkId>))
    requires
        verdicts@.len() == file@.chunk_locations.len(),
        ends_fit(file@.chunk_locations, verdicts@),
    ensures
        match r.0 {
            Some(m) => size_repaired(file@, verdicts@, now_secs) == Some(m@),
            None => size_repaired(file@, verdicts@, now_secs) is None,
        },
        r.1@ == with_dissent(noted@, file@.chunk_locations, verdicts@),
{
    let list: &Vec<ChunkLocation> = &file.chunk_locations;
    let ghost ls = locs(list@);
    let ghost n0 = noted@;
    let mut noted: Vec<ChunkId> = noted;
    let mut end: u64 = 0;
    let mut unknown: bool = false;
    let mut i: usize = 0;
    assert(ls.take(0) =~= Seq::<Loc>::empty());
    while i < list.len()
        invariant
            i <= list@.len(),
            ls == locs(list@),
            verdicts@.len() == ls.len(),
            ends_fit(ls, verdicts@),
            end == file_end(ls.take(i as int), verdicts@.take(i as int)),
            unknown == exists|k: int|
                0 <= k < i && #[trigger] verdicts@[k] == Verdict::Unknown,
            noted@ == with_dissent(n0, ls.take(i as int), verdicts@.take(i as int)),
        decreases list@.len() - i,
    {
        proof {
            assert(ls.take(i + 1).drop_last() =~= ls.take(i as int));
            assert(verdicts@.take(i + 1).drop_last() =~= verdicts@.take(i as int));
            assert(ls.take(i + 1).last() == list@[i as int]@);
            assert(ls[i as int] == list@[i as int]@);
            assert(verdicts@.take(i + 1).last() == verdicts@[i as int]);
            assert(chunk_end(ls[i as int], i as int, verdicts@[i as int]) <= u64::MAX);
            assert(chunk_start(ls[i as int], i as int) <= u64::MAX);
        }
        let start: u64 = match list[i].file_offset {
            Some(o) => o,
            None => i as u64 * CHUNK_SIZE,
        };
        let here: u64 = match verdicts[i] {
            Verdict::Size { size, dissent } => {
                if dissent && !lists_chunk(&noted, list[i].chunk_id) {
                    noted.push(list[i].chunk_id);
                }
                start + size
            },
            Verdict::Unknown => {
                unknown = true;
                assert(verdicts@[i as int] == Verdict::Unknown);
                start + list[i].size as u64
            },
        };
        if here >= end {
            end = here;
        }
        i += 1;
    }
    proof {
        assert(ls.take(i as int) =~= ls);
        assert(verdicts@.take(i as int) =~= verdicts@);
    }
    if !unknown && end != file.size && end > 0 {
        let mut fixed: FileMetadata = file.clone();
        fixed.size = end;
        fixed.modified_at = now_secs;
        fixed.write_seq = fixed.write_seq.saturating_add(1);
        (Some(fixed), noted)
    } else {
        (None, noted)
    }
}

/// A node is named as a holder of one of the chunks.
pub open spec fn named_as_holder(list: Seq<Loc>, node: NodeId) -> bool {
    exists|i: int| 0 <= i < list.len() && (#[trigger] list[i]).nodes.contains(node)
}

fn is_named_as_holder(list: &Vec<ChunkLocation>, node: NodeId) -> (r: bool)
    ensures
        r == named_as_holder(locs(list@), node),
{
    let mut i: usize = 0;
    while i < list.len()
        invariant
            i <= list@.len(),
            forall|j: int| 0 <= j < i ==> !(#[trigger] locs(list@)[j]).nodes.contains(node),
        decreases list@.len() - i,
    {
        assert(locs(list@)[i as int] == list@[i as int]@);
        if crate::locations::lists_node(&list[i].nodes, node) {
            return true;
        }
        i += 1;
    }
    false
}

/// The nodes that are asked for the sizes of a file's chunks: those online that are named as a
/// holder of one of them.
pub open spec fn asked_for_sizes(nodes: Seq<NodeInfo>, list: Seq<Loc>) -> Seq<NodeId>
    decreases nodes.len(),
{
    if nodes.len() == 0 {
        Seq::empty()
    } else {
        let sofar = asked_for_sizes(nodes.drop_last(), list);
        if nodes.last().status == NodeStatus::Online && named_as_holder(
            list,
            nodes.last().id,
        ) {
            sofar.push(nodes.last().id)
        } else {
            sofar
        }
    }
}

pub fn nodes_to_ask(nodes: &Vec<NodeInfo>, list: &Vec<ChunkLocation>) -> (r: Vec<NodeId>)
    ensures
        r@ == asked_for_sizes(nodes@, locs(list@)),
{
    let mut out: Vec<NodeId> = Vec::new();
    let mut i: usize = 0;
    assert(nodes@.take(0) =~= Seq::<NodeInfo>::empty());
    while i < nodes.len()
        invariant
            i <= nodes@.len(),
            out@ == asked_for_sizes(nodes@.take(i as int), locs(list@)),
        decreases nodes@.len() - i,
    {
        proof {
            assert(nodes@.take(i + 1).drop_last() =~= nodes@.take(i as int));
            assert(nodes@.take(i + 1).last() == nodes@[i as int]);
        }
        if nodes[i].status == NodeStatus::Online && is_named_as_holder(
            list,
            nodes[i].id,
        ) {
            out.push(nodes[i].id);
        }
        i += 1;
    }
    assert(nodes@.take(i as int) =~= nodes@);
    out
}

// ---------------------------------------------------------------------------
// Which file is meant.
// ---------------------------------------------------------------------------

/// The 128 bits of the UUID that a text stands for, if it stands for one.
pub uninterp spec fn uuid_in(text: Seq<char>) -> Option<u128>;

/// `uuid::Uuid::parse_str`, with `as_u128` on what it reads: the UUID that a text stands for.
#[verifier::external_body]
fn parse_uuid(text: &str) -> (r: Option<u128>)
    ensures
        r == uuid_in(text@),
{
    uuid::Uuid::parse_str(text).ok().map(|u| u.as_u128())
}

/// How an administrator names a file.
#[derive(Clone, Copy, Debug, PartialEq, Eq, Structural)]
pub enum FileTarget {
    ById(FileId),
    ByPath,
}

/// The target that a UUID, if there is one, makes.
pub fn target_of(uuid: Option<u128>) -> (r: FileTarget)
    ensures
        r == match uuid {
            Some(id) => FileTarget::ById(FileId { id }),
            None => FileTarget::ByPath,
        },
{
    match uuid {
        Some(id) => FileTarget::ById(FileId { id }),
        None => FileTarget::ByPath,
    }
}

/// Reads which file is meant: a text that is a UUID names a file by its identity, every other
/// one by its path.
pub fn file_target(path: &str) -> (r: FileTarget)
    ensures
        r == (match uuid_in(path@) {
            Some(id) => FileTarget::ById(FileId { id }),
            None => FileTarget::ByPath,
        }),
{
    target_of(parse_uuid(path))
}

/// The file that was looked up, or the refusal.
pub fn found_file(lookup: Lookup, path: &str) -> (r: Result<FileMetadata, Response>)
    ensures
        match lookup {
            Lookup::Found(m) => r is Ok && (r->Ok_0)@ == m@,
            Lookup::Missing => r is Err && r->Err_0.refuses(
                "File not found: "@ + path@,
                ErrorCode::NotFound,
            ),
            Lookup::Failed(why) => r is Err && r->Err_0.refuses(
                "Failed to look up file: "@ + why@,
                ErrorCode::InternalError,
            ),
        },
{
    match lookup {
        Lookup::Found(m) => Ok(m),
        Lookup::Missing => Err(
            Response::refusal(join("File not found: ", path), ErrorCode::NotFound),
        ),
        Lookup::Failed(why) => Err(failed("Failed to look up file: ", why.as_str())),
    }
}

/// The refusal of what only the healer can do, where there is none.
pub fn no_healer() -> (r: Response)
    ensures
        r.refuses("Healing manager not available"@, ErrorCode::InternalError),
{
    Response::refusal("Healing manager not available".to_owned(), ErrorCode::InternalError)
}

/// An acknowledgement with a text.
pub open spec fn tells(r: Response, text: Seq<char>) -> bool {
    match r {
        Response::Done { data } => data is Some && (data->0)@ == vstd::utf8::encode_utf8(text),
        _ => false,
    }
}

fn tell(text: String) -> (r: Response)
    ensures
        tells(r, text@),
{
    let bytes: Vec<u8> = vstd::slice::slice_to_vec(text.as_str().as_bytes());
    Response::Done { data: Some(bytes) }
}

/// The chunks to heal for a file, and the reply.
pub fn heal_file(file: &FileMetadata) -> (r: (Vec<ChunkId>, Response))
    ensures
        r.0@ == chunk_ids_of(file@.chunk_locations),
        tells(
            r.1,
            "Queued "@ + decimal(file@.chunk_locations.len()) + " chunks for immediate healing"@,
        ),
{
    let ids: Vec<ChunkId> = chunk_ids(&file.chunk_locations);
    let text: String = join_number("Queued ", ids.len() as u64, " chunks for immediate healing");
    (ids, tell(text))
}

// ---------------------------------------------------------------------------
// Removing corrupt replicas.
// ---------------------------------------------------------------------------

/// How many nodes are online.
pub open spec fn online_count(nodes: Seq<NodeInfo>) -> nat
    decreases nodes.len(),
{
    if nodes.len() == 0 {
        0
    } else {
        online_count(nodes.drop_last()) + if nodes.last().status == NodeStatus::Online {
            1nat
        } else {
            0nat
        }
    }
}


pub fn count_online(nodes: &Vec<NodeInfo>) -> (n: usize)
    ensures
        n == online_count(nodes@),
        n <= nodes@.len(),
{
    let mut n: usize = 0;
    let mut i: usize = 0;
    assert(nodes@.take(0) =~= Seq::<NodeInfo>::empty());
    while i < nodes.len()
        invariant
            i <= nodes@.len(),
            n <= i,
            n == online_count(nodes@.take(i as int)),
        decreases nodes@.len() - i,
    {
        proof {
            assert(nodes@.take(i + 1).drop_last() =~= nodes@.take(i as int));
            assert(nodes@.take(i + 1).last() == nodes@[i as int]);
        }
        if nodes[i].status == NodeStatus::Online {
            n += 1;
        }
        i += 1;
    }
    assert(nodes@.take(i as int) =~= nodes@);
    n
}

/// A repair that was admitted: its file, and whether corrupt replicas may be deleted.
#[derive(Debug)]
pub struct RepairJob {
    pub file: FileMetadata,
    pub destructive: bool,
}

/// The time since a node became leader has been long enough; a node that does not know when it
/// did counts as having led for long.
pub open spec fn grace_over(since_leader_secs: Option<u64>, grace_secs: u64) -> bool {
    match since_leader_secs {
        Some(t) => t >= grace_secs,
        None => true,
    }
}

/// A repair is admitted.
pub open spec fn repair_is_admitted(
    is_leader: bool,
    lookup: Lookup,
    healer: bool,
    nodes: Seq<NodeInfo>,
) -> bool {
    is_leader && lookup is Found && healer && nodes.len() - online_count(nodes) <= 1
}

/// An admitted repair may delete replicas.
pub open spec fn repair_may_delete(
    force: bool,
    since_leader_secs: Option<u64>,
    grace_secs: u64,
) -> bool {
    force || grace_over(since_leader_secs, grace_secs)
}

/// Decides on a request to repair a file. It must come to the leader, name a file, and find the
/// healer. With two or more nodes down it is refused, forced or not, for a copy that is deleted
/// might be the last one. Corrupt replicas are only deleted if that is forced or the leader has
/// led for long enough.
pub fn repair_admission(
    is_leader: bool,
    lookup: Lookup,
    path: &str,
    healer: bool,
    nodes: &Vec<NodeInfo>,
    force: bool,
    since_leader_secs: Option<u64>,
    grace_secs: u64,
) -> (r: Result<RepairJob, Response>)
    ensures
        !is_leader ==> r is Err && r->Err_0.refuses(
            "This node is not the cluster leader — send RepairFile to the leader"@,
            ErrorCode::NotFound,
        ),
        is_leader && lookup is Missing ==> r is Err && r->Err_0.refuses(
            "File not found: "@ + path@,
            ErrorCode::NotFound,
        ),
        is_leader && lookup is Failed ==> r is Err && r->Err_0.refuses(
            "Failed to look up file: "@ + (lookup->Failed_0)@,
            ErrorCode::InternalError,
        ),
        is_leader && lookup is Found && !healer ==> r is Err && r->Err_0.refuses(
            "Healing manager not available"@,
            ErrorCode::InternalError,
        ),
        is_leader && lookup is Found && healer && nodes@.len() - online_count(nodes@) > 1 ==> r is Err
            && r->Err_0.refuses(
            "Repair refused: "@ + decimal((nodes@.len() - online_count(nodes@)) as nat)
                + " node(s) down — destructive ops unsafe with 2+ nodes offline"@,
            ErrorCode::InternalError,
        ),
        is_leader && lookup is Found && healer && nodes@.len() - online_count(nodes@) <= 1 ==> r is Ok
            && (r->Ok_0).file@ == (lookup->Found_0)@ && (r->Ok_0).destructive == (force
            || grace_over(since_leader_secs, grace_secs)),
        r is Ok <==> repair_is_admitted(is_leader, lookup, healer, nodes@),
        r is Ok ==> (r->Ok_0).destructive == repair_may_delete(force, since_leader_secs, grace_secs),
{
    if !is_leader {
        return Err(
            Response::refusal(
                "This node is not the cluster leader — send RepairFile to the leader".to_owned(),
                ErrorCode::NotFound,
            ),
        );
    }
    let file: FileMetadata = match found_file(lookup, path) {
        Ok(m) => m,
        Err(r) => {
            return Err(r);
        },
    };
    if !healer {
        return Err(no_healer());
    }
    let down: usize = nodes.len() - count_online(nodes);
    if down > 1 {
        return Err(
            Response::refusal(
                join_number(
                    "Repair refused: ",
                    down as u64,
                    " node(s) down — destructive ops unsafe with 2+ nodes offline",
                ),
                ErrorCode::InternalError,
            ),
        );
    }
    let destructive: bool = force || match since_leader_secs {
        Some(t) => t >= grace_secs,
        None => true,
    };
    Ok(RepairJob { file, destructive })
}

/// The reply once a repair has been started.
pub fn repair_started(path: &str, chunks: usize) -> (r: Response)
    ensures
        tells(
            r,
            "Repair started in background for "@ + path@ + " ("@ + decimal(chunks as nat)
                + " chunks). Progress logged to server."@,
        ),
{
    let mut s: String = join("Repair started in background for ", path);
    s.append(" (");
    s.append(decimal_text(chunks as u64).as_str());
    s.append(" chunks). Progress logged to server.");
    tell(s)
}

/// What a replica says when it is asked to check a chunk.
#[derive(Clone, Copy, Debug, PartialEq, Eq, Structural)]
pub struct ReplicaCheck {
    pub node: NodeId,
    pub found: bool,
    pub valid: bool,
}

/// The replicas that have the chunk and have it wrong. One that does not have it is no corrupt
/// one.
pub open spec fn corrupt(checks: Seq<ReplicaCheck>) -> Seq<NodeId>
    decreases checks.len(),
{
    if checks.len() == 0 {
        Seq::empty()
    } else {
        let sofar = corrupt(checks.drop_last());
        if checks.last().found && !checks.last().valid {
            sofar.push(checks.last().node)
        } else {
            sofar
        }
    }
}

pub fn corrupt_replicas(checks: &Vec<ReplicaCheck>) -> (r: Vec<NodeId>)
    ensures
        r@ == corrupt(checks@),
{
    let mut out: Vec<NodeId> = Vec::new();
    let mut i: usize = 0;
    assert(checks@.take(0) =~= Seq::<ReplicaCheck>::empty());
    while i < checks.len()
        invariant
            i <= checks@.len(),
            out@ == corrupt(checks@.take(i as int)),
        decreases checks@.len() - i,
    {
        proof {
            assert(checks@.take(i + 1).drop_last() =~= checks@.take(i as int));
            assert(checks@.take(i + 1).last() == checks@[i as int]);
        }
        if checks[i].found && !checks[i].valid {
            out.push(checks[i].node);
        }
        i += 1;
    }
    assert(checks@.take(i as int) =~= checks@);
    out
}

/// The nodes of the first list that are not in the second, in order.
pub open spec fn without_nodes(nodes: Seq<NodeId>, gone: Seq<NodeId>) -> Seq<NodeId>
    decreases nodes.len(),
{
    if nodes.len() == 0 {
        nodes
    } else {
        let sofar = without_nodes(nodes.drop_last(), gone);
        if gone.contains(nodes.last()) {
            sofar
        } else {
            sofar.push(nodes.last())
        }
    }
}

/// The record of a chunk after its corrupt replicas were told to go.
pub open spec fn repaired_location(
    live: Loc,
    checks: Seq<ReplicaCheck>,
    destructive: bool,
    now_ms: u64,
) -> Option<Loc> {
    if destructive && corrupt(checks).len() > 0 {
        Some(
            Loc {
                nodes: without_nodes(live.nodes, corrupt(checks)),
                written_at: Some(now_ms),
                client_write_seq: None,
                ..live
            },
        )
    } else {
        None
    }
}

/// The record of a chunk after its corrupt replicas were told to go: without them, timed anew.
/// Nothing is recorded where nothing may be deleted or nothing is corrupt.
pub fn location_after_repair(
    live: &ChunkLocation,
    checks: &Vec<ReplicaCheck>,
    destructive: bool,
    now_ms: u64,
) -> (r: Option<ChunkLocation>)
    ensures
        if destructive && corrupt(checks@).len() > 0 {
            r is Some && r->0@ == (Loc {
                nodes: without_nodes(live@.nodes, corrupt(checks@)),
                written_at: Some(now_ms),
                client_write_seq: None,
                ..live@
            })
        } else {
            r is None
        },
        repaired_location(live@, checks@, destructive, now_ms) == match r {
            Some(l) => Some(l@),
            None => None,
        },
{
    let bad: Vec<NodeId> = corrupt_replicas(checks);
    if !destructive || bad.len() == 0 {
        return None;
    }
    let mut nodes: Vec<NodeId> = Vec::new();
    let mut i: usize = 0;
    let list: &Vec<NodeId> = &live.nodes;
    assert(list@.take(0) =~= Seq::<NodeId>::empty());
    while i < list.len()
        invariant
            i <= list@.len(),
            nodes@ == without_nodes(list@.take(i as int), bad@),
        decreases list@.len() - i,
    {
        proof {
            assert(list@.take(i + 1).drop_last() =~= list@.take(i as int));
            assert(list@.take(i + 1).last() == list@[i as int]);
        }
        if !lists_node(&bad, list[i]) {
            nodes.push(list[i]);
        }
        i += 1;
    }
    assert(list@.take(i as int) =~= list@);
    let mut out: ChunkLocation = live.clone();
    out.nodes = nodes;
    out.written_at = Some(now_ms);
    out.client_write_seq = None;
    Some(out)
}

proof fn corrupt_members(checks: Seq<ReplicaCheck>, node: NodeId)
    ensures
        corrupt(checks).contains(node) <==> exists|i: int|
            0 <= i < checks.len() && (#[trigger] checks[i]).node == node && checks[i].found
                && !checks[i].valid,
    decreases checks.len(),
{
    if checks.len() > 0 {
        let init = checks.drop_last();
        corrupt_members(init, node);
        let c0 = corrupt(init);
        let c = corrupt(checks);
        if c.contains(node) {
            let k = choose|k: int| 0 <= k < c.len() && c[k] == node;
            if k < c0.len() {
                assert(c0[k] == node);
                let i = choose|i: int|
                    0 <= i < init.len() && (#[trigger] init[i]).node == node && init[i].found
                        && !init[i].valid;
                assert(checks[i].node == node);
            } else {
                assert(checks[checks.len() - 1].node == node);
            }
        }
        if exists|i: int|
            0 <= i < checks.len() && (#[trigger] checks[i]).node == node && checks[i].found
                && !checks[i].valid {
            let i = choose|i: int|
                0 <= i < checks.len() && (#[trigger] checks[i]).node == node && checks[i].found
                    && !checks[i].valid;
            if i < init.len() {
                assert(init[i].node == node);
                let k = choose|k: int| 0 <= k < c0.len() && c0[k] == node;
                assert(c[k] == node);
            } else {
                assert(c[c.len() - 1] == node);
            }
        }
    }
}

proof fn without_members(nodes: Seq<NodeId>, gone: Seq<NodeId>, node: NodeId)
    ensures
        without_nodes(nodes, gone).contains(node) <==> nodes.contains(node) && !gone.contains(node),
    decreases nodes.len(),
{
    if nodes.len() > 0 {
        let init = nodes.drop_last();
        without_members(init, gone, node);
        let w0 = without_nodes(init, gone);
        let w = without_nodes(nodes, gone);
        if w.contains(node) {
            let k = choose|k: int| 0 <= k < w.len() && w[k] == node;
            if k < w0.len() {
                assert(w0[k] == node);
                let i = choose|i: int| 0 <= i < init.len() && init[i] == node;
                assert(nodes[i] == node);
            } else {
                assert(nodes[nodes.len() - 1] == node);
            }
        }
        if nodes.contains(node) && !gone.contains(node) {
            let i = choose|i: int| 0 <= i < nodes.len() && nodes[i] == node;
            if i < init.len() {
                assert(init[i] == node);
                let k = choose|k: int| 0 <= k < w0.len() && w0[k] == node;
                assert(w[k] == node);
            } else {
                assert(w[w.len() - 1] == node);
            }
        }
    }
}

/// A repair never takes a healthy replica, nor one that is missing its chunk, off the record: a
/// node goes only if it has the chunk and has it wrong.
pub proof fn repair_removes_only_corrupt_replicas(
    nodes: Seq<NodeId>,
    checks: Seq<ReplicaCheck>,
    node: NodeId,
)
    requires
        nodes.contains(node),
        forall|i: int|
            0 <= i < checks.len() && (#[trigger] checks[i]).node == node ==> !checks[i].found
                || checks[i].valid,
    ensures
        without_nodes(nodes, corrupt(checks)).contains(node),
{
    corrupt_members(checks, node);
    without_members(nodes, corrupt(checks), node);
}

} // verus!
