//! Repairs as they go: the chunks of one file, and the records of all files.
use crate::chunk_map::{Chunks, FileEntry};
use crate::locations::{first_of, first_of_exec};
use crate::metadata::{broadcast_targets, chunk_ids, chunk_ids_of, online_peers};
use crate::repair::{
    asked_for_sizes, corrupt, corrupt_replicas, ends_fit, nodes_to_ask, repair_size,
    size_repaired, with_dissent, ReplicaCheck, Verdict,
};
use crate::server::{Server, ServerState};
use crate::types::{
    clone_locs, recs, ChunkId, ChunkLocation, FileId, FileMetadata, FileRec, Loc, NodeId,
    NodeInfo,
};
use crate::write_path::{is_online, is_online_exec};
use vstd::prelude::*;

verus! {

// ---------------------------------------------------------------------------
// The chunks of one file.
// ---------------------------------------------------------------------------

/// The holders that are online, in order.
pub open spec fn online_holders(holders: Seq<NodeId>, nodes: Seq<NodeInfo>) -> Seq<NodeId>
    decreases holders.len(),
{
    if holders.len() == 0 {
        holders
    } else {
        let sofar = online_holders(holders.drop_last(), nodes);
        if is_online(nodes, holders.last()) {
            sofar.push(holders.last())
        } else {
            sofar
        }
    }
}

fn find_online_holders(holders: &Vec<NodeId>, nodes: &Vec<NodeInfo>) -> (r: Vec<NodeId>)
    ensures
        r@ == online_holders(holders@, nodes@),
{
    let mut out: Vec<NodeId> = Vec::new();
    let mut i: usize = 0;
    assert(holders@.take(0) =~= Seq::<NodeId>::empty());
    while i < holders.len()
        invariant
            i <= holders@.len(),
            out@ == online_holders(holders@.take(i as int), nodes@),
        decreases holders@.len() - i,
    {
        proof {
            assert(holders@.take(i + 1).drop_last() =~= holders@.take(i as int));
            assert(holders@.take(i + 1).last() == holders@[i as int]);
        }
        if is_online_exec(nodes, holders[i]) {
            out.push(holders[i]);
        }
        i += 1;
    }
    assert(holders@.take(i as int) =~= holders@);
    out
}

/// What is asked about a chunk, and of whom.
#[derive(Debug)]
pub struct ChunkCheck {
    /// Where the chunk is, as far as is known now.
    pub location: ChunkLocation,
    pub file_offset: u64,
    pub file_id: Option<FileId>,
    pub ask: Vec<NodeId>,
}

/// Where a chunk of a file is: the stored record may know more than the file's own list.
pub open spec fn live_location(inline: Loc, stored: Option<Loc>) -> Loc {
    match stored {
        Some(l) => Loc { chunk_id: inline.chunk_id, ..l },
        None => inline,
    }
}

/// A chunk can be checked: its place is known, and someone can be asked.
pub open spec fn can_be_checked(inline: Loc, stored: Option<Loc>, nodes: Seq<NodeInfo>) -> bool {
    inline.file_offset is Some && online_holders(live_location(inline, stored).nodes, nodes).len()
        > 0
}

/// Decides on the check of a chunk. One without a place in the file cannot be checked, for its
/// identity depends on it; nor can one of which no replica is online.
pub fn chunk_check(
    inline: &ChunkLocation,
    stored: Option<ChunkLocation>,
    nodes: &Vec<NodeInfo>,
) -> (r: Option<ChunkCheck>)
    ensures
        ({
            let live = live_location(
                inline@,
                match stored {
                    Some(l) => Some(l@),
                    None => None,
                },
            );
            let ask = online_holders(live.nodes, nodes@);
            if inline@.file_offset is None || ask.len() == 0 {
                r is None
            } else {
                &&& r is Some
                &&& (r->0).location@ == live
                &&& (r->0).file_offset == inline@.file_offset->0
                &&& (r->0).file_id == first_of(live.file_id, inline@.file_id)
                &&& (r->0).ask@ == ask
            }
        }),
        r is Some <==> can_be_checked(
            inline@,
            match stored {
                Some(l) => Some(l@),
                None => None,
            },
            nodes@,
        ),
{
    let file_offset: u64 = match inline.file_offset {
        Some(o) => o,
        None => {
            return None;
        },
    };
    let location: ChunkLocation = match stored {
        Some(l) => ChunkLocation { chunk_id: inline.chunk_id, ..l },
        None => inline.clone(),
    };
    let ask: Vec<NodeId> = find_online_holders(&location.nodes, nodes);
    if ask.len() == 0 {
        return None;
    }
    let file_id: Option<FileId> = first_of_exec(location.file_id, inline.file_id);
    Some(ChunkCheck { location, file_offset, file_id, ask })
}

/// The nodes that are told to delete their replica.
pub open spec fn told_to_delete(checks: Seq<ReplicaCheck>, destructive: bool) -> Seq<NodeId> {
    if destructive {
        corrupt(checks)
    } else {
        Seq::empty()
    }
}

/// The nodes that are told to delete their replica: those whose bytes are wrong, if anything may
/// be deleted. A replica that is missing is left to the healer.
pub fn replicas_to_delete(checks: &Vec<ReplicaCheck>, destructive: bool) -> (r: Vec<NodeId>)
    ensures
        r@ == (if destructive {
            corrupt(checks@)
        } else {
            Seq::empty()
        }),
        r@ == told_to_delete(checks@, destructive),
{
    if destructive {
        corrupt_replicas(checks)
    } else {
        let none: Vec<NodeId> = Vec::new();
        assert(none@ =~= Seq::<NodeId>::empty());
        none
    }
}

proof fn corrupt_were_checked(checks: Seq<ReplicaCheck>, node: NodeId)
    requires
        corrupt(checks).contains(node),
    ensures
        exists|i: int|
            0 <= i < checks.len() && (#[trigger] checks[i]).node == node && checks[i].found
                && !checks[i].valid,
    decreases checks.len(),
{
    let init = checks.drop_last();
    let sofar = corrupt(init);
    if sofar.contains(node) {
        corrupt_were_checked(init, node);
        let i = choose|i: int|
            0 <= i < init.len() && (#[trigger] init[i]).node == node && init[i].found
                && !init[i].valid;
        assert(checks[i] == init[i]);
    } else {
        let all = corrupt(checks);
        let k = choose|k: int| 0 <= k < all.len() && all[k] == node;
        if k < sofar.len() {
            assert(sofar[k] == node);
        }
        assert(checks.last() == checks[checks.len() - 1]);
    }
}

/// A node is told to delete its replica only if deleting is allowed and that node itself found
/// wrong bytes: neither a missing replica nor a node that gave no answer is touched.
pub proof fn only_wrong_bytes_are_deleted(
    checks: Seq<ReplicaCheck>,
    destructive: bool,
    told: Seq<NodeId>,
    node: NodeId,
)
    requires
        told == (if destructive {
            corrupt(checks)
        } else {
            Seq::empty()
        }),
        told.contains(node),
    ensures
        destructive,
        exists|i: int|
            0 <= i < checks.len() && (#[trigger] checks[i]).node == node && checks[i].found
                && !checks[i].valid,
{
    corrupt_were_checked(checks, node);
}

// ---------------------------------------------------------------------------
// The records of all files.
// ---------------------------------------------------------------------------

/// The chunk map's files with the entries of those records that have locations set anew.
pub open spec fn map_repaired(files: Map<u128, FileEntry>, records: Seq<FileRec>) -> Map<
    u128,
    FileEntry,
>
    decreases records.len(),
{
    if records.len() == 0 {
        files
    } else {
        let sofar = map_repaired(files, records.drop_last());
        let last = records.last();
        if last.chunk_locations.len() > 0 {
            sofar.insert(last.id.id, (last.chunk_locations, last.write_seq))
        } else {
            sofar
        }
    }
}

impl Server {
    /// Sets the chunk map anew from the stored records of all files.
    pub fn repair_chunk_map(&mut self, records: &Vec<FileMetadata>)
        ensures
            final(self)@ == (ServerState {
                chunks: Chunks {
                    files: map_repaired(old(self)@.chunks.files, recs(records@)),
                    owner: old(self)@.chunks.owner,
                },
                ..old(self)@
            }),
    {
        let ghost all = recs(records@);
        let ghost s0 = self@;
        let mut i: usize = 0;
        assert(all.take(0) =~= Seq::<FileRec>::empty());
        while i < records.len()
            invariant
                i <= records@.len(),
                all == recs(records@),
                self@ == (ServerState {
                    chunks: Chunks {
                        files: map_repaired(s0.chunks.files, all.take(i as int)),
                        owner: s0.chunks.owner,
                    },
                    ..s0
                }),
            decreases records@.len() - i,
        {
            proof {
                assert(all.take(i + 1).drop_last() =~= all.take(i as int));
                assert(all.take(i + 1).last() == records@[i as int]@);
            }
            let f: &FileMetadata = &records[i];
            if f.chunk_locations.len() > 0 {
                self.set_chunk_map_entry(f.id, clone_locs(&f.chunk_locations), f.write_seq);
            }
            i += 1;
        }
        assert(all.take(i as int) =~= all);
    }
}

/// The records that have locations.
pub open spec fn with_chunks(records: Seq<FileRec>) -> Seq<FileRec>
    decreases records.len(),
{
    if records.len() == 0 {
        records
    } else {
        let sofar = with_chunks(records.drop_last());
        if records.last().chunk_locations.len() > 0 {
            sofar.push(records.last())
        } else {
            sofar
        }
    }
}

pub open spec fn ids_of(records: Seq<FileRec>) -> Seq<FileId> {
    records.map_values(|f: FileRec| f.id)
}

/// A repair of all records that the leader carries out.
#[derive(Debug)]
pub struct MetadataRepair {
    live: Vec<FileId>,
    files: Vec<FileMetadata>,
    at: usize,
    fixed: Vec<FileMetadata>,
    heal: Vec<ChunkId>,
}

pub ghost struct RepairState {
    /// All files that exist.
    pub live: Seq<FileId>,
    /// Those that have chunks.
    pub files: Seq<FileRec>,
    /// How many of them were dealt with.
    pub at: int,
    /// The records that were corrected and stored.
    pub fixed: Seq<FileRec>,
    /// The chunks to heal.
    pub heal: Seq<ChunkId>,
}

impl View for MetadataRepair {
    type V = RepairState;

    closed spec fn view(&self) -> RepairState {
        RepairState {
            live: self.live@,
            files: recs(self.files@),
            at: self.at as int,
            fixed: recs(self.fixed@),
            heal: self.heal@,
        }
    }
}

impl RepairState {
    pub open spec fn wf(self) -> bool {
        0 <= self.at <= self.files.len()
    }
}

/// What is left to do once all files were dealt with.
#[derive(Debug)]
pub struct RepairEnd {
    /// The chunks to heal at once.
    pub heal: Vec<ChunkId>,
    /// The nodes that are told which files exist, and then get the corrected records.
    pub followers: Vec<NodeId>,
    /// The files that exist.
    pub live: Vec<FileId>,
    /// The corrected records, which travel no further than to those nodes.
    pub push: Vec<FileMetadata>,
}

impl MetadataRepair {
    /// Begins a repair from the stored records. Only a leader that knows files goes on: from an
    /// empty list its followers would conclude that everything was deleted.
    pub fn begins(records: &Vec<FileMetadata>, is_leader: bool) -> (r: Option<MetadataRepair>)
        ensures
            records@.len() == 0 || !is_leader ==> r is None,
            records@.len() > 0 && is_leader ==> r is Some && (r->0)@.wf() && (r->0)@ == (
            RepairState {
                live: ids_of(recs(records@)),
                files: with_chunks(recs(records@)),
                at: 0,
                fixed: Seq::empty(),
                heal: Seq::empty(),
            }),
    {
        if records.len() == 0 || !is_leader {
            return None;
        }
        let ghost all = recs(records@);
        let mut live: Vec<FileId> = Vec::new();
        let mut files: Vec<FileMetadata> = Vec::new();
        let mut i: usize = 0;
        assert(all.take(0) =~= Seq::<FileRec>::empty());
        assert(recs(files@) =~= with_chunks(all.take(0)));
        assert(live@ =~= ids_of(all.take(0)));
        while i < records.len()
            invariant
                i <= records@.len(),
                all == recs(records@),
                live@ == ids_of(all.take(i as int)),
                recs(files@) == with_chunks(all.take(i as int)),
            decreases records@.len() - i,
        {
            proof {
                assert(all.take(i + 1).drop_last() =~= all.take(i as int));
                assert(all.take(i + 1).last() == records@[i as int]@);
            }
            let ghost before = recs(files@);
            let ghost ids = live@;
            live.push(records[i].id);
            if records[i].chunk_locations.len() > 0 {
                let f: FileMetadata = records[i].clone();
                let ghost fv = f@;
                files.push(f);
                assert(recs(files@) =~= before.push(fv));
            }
            assert(live@ =~= ids_of(all.take(i + 1)));
            i += 1;
        }
        assert(all.take(i as int) =~= all);
        let fixed: Vec<FileMetadata> = Vec::new();
        let heal: Vec<ChunkId> = Vec::new();
        assert(recs(fixed@) =~= Seq::<FileRec>::empty());
        assert(heal@ =~= Seq::<ChunkId>::empty());
        Some(MetadataRepair { live, files, at: 0, fixed, heal })
    }

    /// The next file, with the nodes that are asked for the sizes of its chunks, and the chunks.
    pub fn next_file(&self, nodes: &Vec<NodeInfo>) -> (r: Option<
        (FileMetadata, Vec<NodeId>, Vec<ChunkId>),
    >)
        requires
            self@.wf(),
        ensures
            self@.at == self@.files.len() ==> r is None,
            self@.at < self@.files.len() ==> {
                let f = self@.files[self@.at];
                &&& r is Some
                &&& (r->0).0@ == f
                &&& (r->0).1@ == asked_for_sizes(nodes@, f.chunk_locations)
                &&& (r->0).2@ == chunk_ids_of(f.chunk_locations)
            },
    {
        if self.at < self.files.len() {
            let f: FileMetadata = self.files[self.at].clone();
            let ask: Vec<NodeId> = nodes_to_ask(nodes, &f.chunk_locations);
            let ids: Vec<ChunkId> = chunk_ids(&f.chunk_locations);
            Some((f, ask, ids))
        } else {
            None
        }
    }

    /// Nobody answered: the file is left as it is.
    pub fn unanswered(&mut self)
        requires
            old(self)@.wf(),
            old(self)@.at < old(self)@.files.len(),
        ensures
            final(self)@.wf(),
            final(self)@ == (RepairState { at: old(self)@.at + 1, ..old(self)@ }),
    {
        let n: usize = self.files.len();
        assert(self.at < n);
        self.at = self.at + 1;
    }

    /// Takes in the verdicts on the file's chunks: hands back its record with the size that they
    /// make up, if it was wrong, and notes the chunks of which a replica disagrees.
    pub fn judged(&mut self, verdicts: &Vec<Verdict>, now_secs: u64) -> (r: Option<FileMetadata>)
        requires
            old(self)@.wf(),
            old(self)@.at < old(self)@.files.len(),
            verdicts@.len() == old(self)@.files[old(self)@.at].chunk_locations.len(),
            ends_fit(old(self)@.files[old(self)@.at].chunk_locations, verdicts@),
        ensures
            final(self)@.wf(),
            ({
                let f = old(self)@.files[old(self)@.at];
                &&& match r {
                    Some(m) => size_repaired(f, verdicts@, now_secs) == Some(m@),
                    None => size_repaired(f, verdicts@, now_secs) is None,
                }
                &&& final(self)@ == (RepairState {
                    at: old(self)@.at + 1,
                    heal: with_dissent(old(self)@.heal, f.chunk_locations, verdicts@),
                    ..old(self)@
                })
            }),
    {
        let noted: Vec<ChunkId> = self.heal.clone();
        assert(noted@ =~= self.heal@);
        let (fixed, heal): (Option<FileMetadata>, Vec<ChunkId>) = repair_size(
            &self.files[self.at],
            verdicts,
            noted,
            now_secs,
        );
        self.heal = heal;
        let n: usize = self.files.len();
        assert(self.at < n);
        self.at = self.at + 1;
        fixed
    }

    /// A corrected record was stored.
    pub fn stored(&mut self, record: FileMetadata)
        requires
            old(self)@.wf(),
        ensures
            final(self)@.wf(),
            final(self)@ == (RepairState {
                fixed: old(self)@.fixed.push(record@),
                ..old(self)@
            }),
    {
        let ghost before = recs(self.fixed@);
        let ghost rv = record@;
        self.fixed.push(record);
        assert(recs(self.fixed@) =~= before.push(rv));
    }

    /// Ends the repair, once all files were dealt with.
    pub fn ends(self, nodes: &Vec<NodeInfo>, local: NodeId) -> (r: RepairEnd)
        requires
            self@.at == self@.files.len(),
        ensures
            r.heal@ == self@.heal,
            r.followers@ == online_peers(nodes@, local),
            r.live@ == self@.live,
            recs(r.push@) == self@.fixed,
    {
        RepairEnd {
            heal: self.heal,
            followers: broadcast_targets(nodes, local),
            live: self.live,
            push: self.fixed,
        }
    }
}

proof fn dissent_only_adds(
    noted: Seq<ChunkId>,
    list: Seq<Loc>,
    verdicts: Seq<Verdict>,
)
    requires
        list.len() == verdicts.len(),
        noted.no_duplicates(),
    ensures
        with_dissent(noted, list, verdicts).no_duplicates(),
        noted.len() <= with_dissent(noted, list, verdicts).len(),
        forall|c: ChunkId| noted.contains(c) ==> #[trigger] with_dissent(
            noted,
            list,
            verdicts,
        ).contains(c),
    decreases list.len(),
{
    if list.len() > 0 {
        dissent_only_adds(noted, list.drop_last(), verdicts.drop_last());
        let sofar = with_dissent(noted, list.drop_last(), verdicts.drop_last());
        let all = with_dissent(noted, list, verdicts);
        let c = list.last().chunk_id;
        if all != sofar {
            assert(all == sofar.push(c));
            assert forall|d: ChunkId| sofar.contains(d) implies #[trigger] all.contains(d) by {
                let k = choose|k: int| 0 <= k < sofar.len() && sofar[k] == d;
                assert(all[k] == d);
            }
            assert forall|i: int, j: int| 0 <= i < j < all.len() implies all[i] != all[j] by {
                if j == sofar.len() {
                    assert(sofar.contains(sofar[i]));
                }
            }
        }
    }
}

/// A chunk that is to be healed stays on the list through the rest of the repair, and stands on it
/// once, however many of its replicas disagree.
pub proof fn repair_forgets_no_chunk_to_heal(
    heal: Seq<ChunkId>,
    f: FileRec,
    verdicts: Seq<Verdict>,
    chunk: ChunkId,
)
    requires
        heal.no_duplicates(),
        heal.contains(chunk),
        verdicts.len() == f.chunk_locations.len(),
    ensures
        with_dissent(heal, f.chunk_locations, verdicts).contains(chunk),
        with_dissent(heal, f.chunk_locations, verdicts).no_duplicates(),
{
    dissent_only_adds(heal, f.chunk_locations, verdicts);
}

/// A correction changes nothing of a record but its size and its times, and counts as a newer
/// write, so that no follower holds on to the wrong size.
pub proof fn a_correction_counts_as_newer(rec: FileRec, verdicts: Seq<Verdict>, now_secs: u64)
    requires
        size_repaired(rec, verdicts, now_secs) is Some,
        rec.write_seq < u64::MAX,
    ensures
        ({
            let m = size_repaired(rec, verdicts, now_secs)->0;
            &&& m.write_seq == rec.write_seq + 1
            &&& m.size != rec.size
            &&& m.size > 0
            &&& m == (FileRec {
                size: m.size,
                modified_at: now_secs,
                write_seq: m.write_seq,
                ..rec
            })
        }),
{
}

/// The list of files that the followers get names every record that was there, with chunks or
/// without: none of them is taken for deleted.
pub proof fn no_record_is_left_off_the_list(records: Seq<FileRec>, k: int)
    requires
        0 <= k < records.len(),
    ensures
        ids_of(records).contains(records[k].id),
{
    assert(ids_of(records)[k] == records[k].id);
}

} // verus!
