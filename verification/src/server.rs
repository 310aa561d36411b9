//! A node's metadata state in memory, and how requests change it.
use crate::chunk_map::{record_taken, reported_for_any, reported_for_file, ChunkMap, Chunks};
use crate::loops::{
    dirties, healer_batch, not_of, since, since_exec, to_push, Dirty, DirtySpec, ForwardQueue,
    RecentWrites, MAX_RECENT_WRITES,
};
use crate::metadata::{
    alive, detect_metadata_write_seq_gap, disseminated, drop_marked, fold_metadata_batch,
    forwarded_ttl, gap, grave, is_fold, put_admission, put_follow_up, put_reconciled,
    queues_for_leader, reconcile_disseminated, reconcile_put, reconcile_replicated, replicated,
    tombstone, worth_telling, write_seq_after, Grave, PutAdmission,
};
use crate::protocol::Response;
use crate::shared_maps::{
    chunk_members, chunks_set_contains, chunks_set_insert, chunks_set_list, chunks_set_new,
    chunks_set_remove, file_members, files_set_contains, files_set_insert, files_set_new,
    files_set_remove, keyed, lists_records, record_entries, records_clear, records_insert,
    records_list, records_new, records_remove, seq_entries, seqs_get, seqs_insert, seqs_new,
    seqs_remove, slot_entries, slots_get, slots_insert, slots_new, slots_remove,
};
use crate::types::{locs, recs, ChunkId, ChunkLocation, FileId, FileMetadata, FileRec, Loc};
use dashmap::{DashMap, DashSet};
use vstd::prelude::*;

verus! {

/// The part of a node's state that requests change in memory.
pub struct Server {
    chunk_map: ChunkMap,
    file_write_seqs: DashMap<u128, u64>,
    recent_writes: RecentWrites,
    forward_queue: ForwardQueue,
    replication_factor: usize,
    delete_tombstones: DashMap<u128, u64>,
    chunk_tombstones: DashSet<[u8; 32]>,
    pending_broadcasts: DashMap<u128, FileMetadata>,
    pending_metadata_writes: DashSet<u128>,
    pending_renames: DashSet<u128>,
    pending_patch_ids: DashMap<[u8; 32], (u128, u64)>,
    last_cluster_write_ms: u64,
}

/// What a server holds.
pub ghost struct ServerState {
    pub chunks: Chunks,
    /// The highest write sequence seen of each file.
    pub write_seqs: Map<u128, u64>,
    /// The last write to each file, oldest first.
    pub recent: Seq<(FileRec, u64)>,
    /// What waits to be forwarded to the leader, oldest first.
    pub forwards: Seq<(FileRec, u64)>,
    pub rf: usize,
    /// When each deleted file was deleted.
    pub tombstones: Map<u128, u64>,
    /// The chunks that nobody may copy from here.
    pub chunk_tombstones: Set<[u8; 32]>,
    /// The records to push to the followers.
    pub dirty: Map<u128, FileRec>,
    /// The files with a record that was acknowledged but is not stored yet.
    pub pending_writes: Set<u128>,
    /// The files that are being renamed.
    pub pending_renames: Set<u128>,
    /// The chunks that are part of a patch, with the file and the slot of it.
    pub patches: Map<[u8; 32], (u128, u64)>,
    /// When the cluster was last written to.
    pub last_write_ms: u64,
}

impl View for Server {
    type V = ServerState;

    closed spec fn view(&self) -> ServerState {
        ServerState {
            chunks: self.chunk_map@,
            write_seqs: seq_entries(self.file_write_seqs),
            recent: self.recent_writes@,
            forwards: self.forward_queue@,
            rf: self.replication_factor,
            tombstones: seq_entries(self.delete_tombstones),
            chunk_tombstones: chunk_members(self.chunk_tombstones),
            dirty: record_entries(self.pending_broadcasts),
            pending_writes: file_members(self.pending_metadata_writes),
            pending_renames: file_members(self.pending_renames),
            patches: slot_entries(self.pending_patch_ids),
            last_write_ms: self.last_cluster_write_ms,
        }
    }
}

impl ServerState {
    /// The write sequence known of a file.
    pub open spec fn write_seq_of(self, file: FileId) -> u64 {
        if self.write_seqs.dom().contains(file.id) {
            self.write_seqs[file.id]
        } else {
            0
        }
    }

    /// What the chunk map holds of a file.
    pub open spec fn held(self, file: FileId) -> Option<Seq<Loc>> {
        if self.chunks.files.dom().contains(file.id) {
            Some(self.chunks.files[file.id].0)
        } else {
            None
        }
    }

    /// How long ago a file was deleted, if it was.
    pub open spec fn tombstone_age(self, file: FileId, now_ms: u64) -> Option<u64> {
        if self.tombstones.dom().contains(file.id) {
            Some(since(self.tombstones[file.id], now_ms))
        } else {
            None
        }
    }

    /// The file was deleted just now.
    pub open spec fn just_deleted(self, file: FileId, now_ms: u64) -> bool {
        grave(self.tombstone_age(file, now_ms)) == Grave::Fresh
    }

    /// The file was deleted, and that is remembered.
    pub open spec fn buried(self, file: FileId) -> bool {
        self.tombstones.dom().contains(file.id)
    }

    /// The write sequences after a record was seen: a higher one is noted.
    pub open spec fn seqs_after(self, rec: FileRec) -> Map<u128, u64> {
        if rec.write_seq > self.write_seq_of(rec.id) {
            self.write_seqs.insert(rec.id.id, rec.write_seq)
        } else {
            self.write_seqs
        }
    }
}

/// For each location, whether its chunk is among those present on disk.
pub open spec fn present_flags(list: Seq<Loc>, present: Seq<ChunkId>) -> Seq<bool> {
    list.map_values(|l: Loc| present.contains(l.chunk_id))
}

/// The recent writes after one more: in place of an earlier one to its file, and with the oldest
/// gone if there are too many.
pub open spec fn recent_after(recent: Seq<(FileRec, u64)>, rec: FileRec, now_ms: u64) -> Seq<
    (FileRec, u64),
> {
    let noted = not_of(recent, rec.id).push((rec, now_ms));
    if noted.len() > MAX_RECENT_WRITES {
        noted.drop_first()
    } else {
        noted
    }
}

fn flag_present(list: &Vec<ChunkLocation>, present: &Vec<ChunkId>) -> (r: Vec<bool>)
    ensures
        r@ == present_flags(locs(list@), present@),
{
    let ghost want = present_flags(locs(list@), present@);
    let mut out: Vec<bool> = Vec::new();
    let mut i: usize = 0;
    while i < list.len()
        invariant
            i <= list@.len(),
            want == present_flags(locs(list@), present@),
            out@ =~= want.take(i as int),
        decreases list@.len() - i,
    {
        assert(locs(list@)[i as int] == list@[i as int]@);
        out.push(crate::locations::lists_chunk(present, list[i].chunk_id));
        i += 1;
    }
    assert(want.take(i as int) =~= want);
    out
}

// ---------------------------------------------------------------------------
// Putting.
// ---------------------------------------------------------------------------

/// What is known when a client puts a record: whether this node leads, where the leader is, the
/// path that is stored for the file, and which of the chunks in question are on disk here.
#[derive(Debug)]
pub struct PutFacts {
    pub is_leader: bool,
    pub leader_addr: Option<String>,
    pub known_path: Option<String>,
    pub present: Vec<ChunkId>,
    pub now_ms: u64,
}

/// A record that was taken in and is to be stored.
#[derive(Debug)]
pub struct Taken {
    pub metadata: FileMetadata,
    /// The record is stored before the client is answered; otherwise it is queued.
    pub commit_now: bool,
    /// The write sequences that went missing before it.
    pub missing: Option<(u64, u64)>,
}

/// What came of a put.
#[derive(Debug)]
pub enum PutOutcome {
    /// Answer this; the record goes no further.
    Answer(Response),
    /// The file is being renamed: wait for that, and put the record again.
    WaitForRename,
    /// Store the record, and answer this.
    Store(Taken, Response),
}

/// The put was taken in: the record is reconciled with the stored path and the held locations,
/// the highest write sequence is noted, the chunk map takes the reconciled record in, the write
/// is remembered for telling around and, if it is worth telling, for pushing to the followers;
/// an old tombstone is forgotten. A record that is not stored at once counts as pending.
pub open spec fn put_taken(
    before: ServerState,
    rec: FileRec,
    covers_from: u64,
    facts: PutFacts,
    taken: Taken,
    after: ServerState,
) -> bool {
    let out = put_reconciled(
        rec,
        match facts.known_path {
            Some(p) => Some(p@),
            None => None,
        },
        before.held(rec.id),
    );
    &&& taken.metadata@ == out
    &&& taken.commit_now == !worth_telling(out)
    &&& taken.missing == gap(before.write_seq_of(rec.id), covers_from, rec.write_seq)
    &&& record_taken(
        before.chunks,
        out,
        present_flags(out.chunk_locations, facts.present@),
        after.chunks,
    )
    &&& after == (ServerState {
        chunks: after.chunks,
        write_seqs: before.seqs_after(rec),
        recent: recent_after(before.recent, out, facts.now_ms),
        tombstones: before.tombstones.remove(rec.id.id),
        dirty: if worth_telling(out) {
            before.dirty.insert(rec.id.id, out)
        } else {
            before.dirty
        },
        pending_writes: if worth_telling(out) {
            before.pending_writes.insert(rec.id.id)
        } else {
            before.pending_writes
        },
        ..before
    })
}

// ---------------------------------------------------------------------------
// Replicating.
// ---------------------------------------------------------------------------

/// What is known when a peer replicates a record.
#[derive(Debug)]
pub struct ReplicaFacts {
    pub is_leader: bool,
    pub leader_is_self: bool,
    pub present: Vec<ChunkId>,
    pub now_ms: u64,
}

/// A replicated record that was taken in.
#[derive(Debug)]
pub struct Replicated {
    pub metadata: FileMetadata,
    /// With how many hops it travels on, if it does.
    pub forward_ttl: Option<u8>,
    /// It was queued for the leader.
    pub queued: bool,
}

/// The state after a replicated record was taken in as `out`: its chunks and its write sequence.
pub open spec fn replica_taken(
    before: ServerState,
    rec: FileRec,
    present: Seq<ChunkId>,
    out: FileRec,
    after: ServerState,
) -> bool {
    &&& out == replicated(
        rec,
        before.held(rec.id),
        rec.write_seq > before.write_seq_of(rec.id),
    )
    &&& record_taken(
        before.chunks,
        out,
        present_flags(out.chunk_locations, present),
        after.chunks,
    )
    &&& after == (ServerState {
        chunks: after.chunks,
        write_seqs: before.seqs_after(rec),
        ..before
    })
}

/// A batch of replicated records was taken in one after the other; those of files deleted just
/// now were passed over.
pub open spec fn replicas_taken(
    before: ServerState,
    items: Seq<FileRec>,
    present: Seq<ChunkId>,
    now_ms: u64,
    out: Seq<FileRec>,
    after: ServerState,
) -> bool
    decreases items.len(),
{
    if items.len() == 0 {
        out.len() == 0 && after == before
    } else if before.just_deleted(items.last().id, now_ms) {
        replicas_taken(before, items.drop_last(), present, now_ms, out, after)
    } else {
        out.len() > 0 && exists|mid: ServerState|
            #![trigger replica_taken(mid, items.last(), present, out.last(), after)]
            replicas_taken(before, items.drop_last(), present, now_ms, out.drop_last(), mid)
                && replica_taken(mid, items.last(), present, out.last(), after)
    }
}

/// For each record, whether its file has a tombstone.
pub open spec fn buried_flags(s: ServerState, items: Seq<FileRec>) -> Seq<bool> {
    items.map_values(|r: FileRec| s.buried(r.id))
}

/// Records were taken into the chunk map one after the other.
pub open spec fn records_taken(
    before: Chunks,
    items: Seq<FileRec>,
    present: Seq<ChunkId>,
    after: Chunks,
) -> bool
    decreases items.len(),
{
    if items.len() == 0 {
        after == before
    } else {
        exists|mid: Chunks|
            records_taken(before, items.drop_last(), present, mid) && #[trigger] record_taken(
                mid,
                items.last(),
                present_flags(items.last().chunk_locations, present),
                after,
            )
    }
}

/// Stored locations were taken into the chunk map one after the other, each for its file where
/// it names one.
pub open spec fn locations_taken(before: Chunks, items: Seq<Loc>, after: Chunks) -> bool
    decreases items.len(),
{
    if items.len() == 0 {
        after == before
    } else {
        exists|mid: Chunks|
            locations_taken(before, items.drop_last(), mid) && #[trigger] location_taken(
                mid,
                items.last().file_id,
                items.last(),
                after,
            )
    }
}

/// A stored location was taken into the chunk map.
pub open spec fn location_taken(
    before: Chunks,
    file: Option<FileId>,
    l: Loc,
    after: Chunks,
) -> bool {
    match file {
        Some(f) => reported_for_file(before, f.id, l, after),
        None => reported_for_any(before, l, after),
    }
}

/// A file was deleted: it is buried and not pushed any more, and its chunks are forgotten.
pub open spec fn deleted(before: ServerState, file: FileId, now_ms: u64, after: ServerState) -> bool {
    after == (ServerState {
        tombstones: before.tombstones.insert(file.id, now_ms),
        dirty: before.dirty.remove(file.id),
        chunks: Chunks {
            files: before.chunks.files.remove(file.id),
            owner: if before.chunks.files.dom().contains(file.id) {
                crate::chunk_map::released(before.chunks.owner, before.chunks.files[file.id].0)
            } else {
                before.chunks.owner
            },
        },
        ..before
    })
}

/// A changed record, with the age of its file's tombstone and what the chunk map holds.
pub open spec fn dressed_one(s: ServerState, e: (u128, FileRec), now_ms: u64) -> DirtySpec {
    DirtySpec {
        rec: e.1,
        tombstone_age_ms: s.tombstone_age(FileId { id: e.0 }, now_ms),
        held: s.held(FileId { id: e.0 }),
    }
}

pub open spec fn dressed(s: ServerState, list: Seq<(u128, FileRec)>, now_ms: u64) -> Seq<
    DirtySpec,
> {
    list.map_values(|e: (u128, FileRec)| dressed_one(s, e, now_ms))
}

/// A chunk can be served from a node in this state.
pub open spec fn serves(s: ServerState, chunk: ChunkId, on_disk: bool) -> bool {
    on_disk && !s.chunk_tombstones.contains(chunk.hash)
}

/// The chunks that are part of a patch once one more patch was recorded.
pub open spec fn patches_after(
    patches: Map<[u8; 32], (u128, u64)>,
    token: ChunkId,
    base: ChunkId,
    retired: Option<ChunkId>,
    file: FileId,
    chunk_idx: u64,
) -> Map<[u8; 32], (u128, u64)> {
    (match retired {
        Some(t) => patches.remove(t.hash),
        None => patches,
    }).insert(token.hash, (file.id, chunk_idx)).insert(base.hash, (file.id, chunk_idx))
}

/// What waits for the leader once a replicated record was taken in.
pub open spec fn forwards_after(
    forwards: Seq<(FileRec, u64)>,
    rec: FileRec,
    queued: bool,
    now_ms: u64,
) -> Seq<(FileRec, u64)> {
    if queued {
        not_of(forwards, rec.id).push((rec, now_ms))
    } else {
        forwards
    }
}

/// A put has to wait until its file has been renamed.
pub open spec fn put_waits(s: ServerState, is_leader: bool, file: FileId, now_ms: u64) -> bool {
    is_leader && !s.just_deleted(file, now_ms) && s.pending_renames.contains(file.id)
}

/// A put is taken in.
pub open spec fn put_goes_in(s: ServerState, is_leader: bool, file: FileId, now_ms: u64) -> bool {
    is_leader && !s.just_deleted(file, now_ms) && !s.pending_renames.contains(file.id)
}

/// The records of a disseminated batch that are to be stored.
pub open spec fn admitted(s: ServerState, items: Seq<FileRec>) -> Seq<FileRec> {
    alive(items, buried_flags(s, items)).map_values(|f: FileRec| disseminated(f, s.held(f.id)))
}

impl Server {
    /// A node that knows nothing yet.
    pub fn new(replication_factor: usize) -> (s: Server)
        ensures
            s@.chunks.files == Map::<u128, crate::chunk_map::FileEntry>::empty(),
            s@.chunks.owner == Map::<[u8; 32], u128>::empty(),
            s@.write_seqs == Map::<u128, u64>::empty(),
            s@.recent.len() == 0,
            s@.forwards.len() == 0,
            s@.rf == replication_factor,
            s@.tombstones == Map::<u128, u64>::empty(),
            s@.chunk_tombstones == Set::<[u8; 32]>::empty(),
            s@.dirty == Map::<u128, FileRec>::empty(),
            s@.pending_writes == Set::<u128>::empty(),
            s@.pending_renames == Set::<u128>::empty(),
            s@.patches == Map::<[u8; 32], (u128, u64)>::empty(),
            s@.last_write_ms == 0,
    {
        Server {
            chunk_map: ChunkMap::new(),
            file_write_seqs: seqs_new(),
            recent_writes: RecentWrites::new(),
            forward_queue: ForwardQueue::new(),
            replication_factor,
            delete_tombstones: seqs_new(),
            chunk_tombstones: chunks_set_new(),
            pending_broadcasts: records_new(),
            pending_metadata_writes: files_set_new(),
            pending_renames: files_set_new(),
            pending_patch_ids: slots_new(),
            last_cluster_write_ms: 0,
        }
    }

    /// The chunk map.
    pub fn chunk_map_ref(&self) -> (r: &ChunkMap)
        ensures
            r@ == self@.chunks,
    {
        &self.chunk_map
    }

    /// The replication factor in force.
    pub fn replication_factor(&self) -> (r: usize)
        ensures
            r == self@.rf,
    {
        self.replication_factor
    }

    /// Sets the replication factor, within its bounds.
    pub fn handle_set_replication_factor(&mut self, requested: usize) -> (r: Response)
        ensures
            r.acknowledges(),
            final(self)@ == (ServerState {
                rf: crate::cluster::clamped(requested, 1, 10),
                ..old(self)@
            }),
    {
        self.replication_factor = crate::cluster::replication_factor_setting(requested);
        Response::Done { data: None }
    }

    /// The highest write sequence seen of a file, if any was.
    pub fn file_write_seq(&self, file_id: FileId) -> (r: Option<u64>)
        ensures
            r == (if self@.write_seqs.dom().contains(file_id.id) {
                Some(self@.write_seqs[file_id.id])
            } else {
                None
            }),
    {
        seqs_get(&self.file_write_seqs, file_id.id)
    }

    fn note_write_seq(&mut self, file_id: FileId, incoming: u64) -> (r: (u64, bool))
        ensures
            r.0 == old(self)@.write_seq_of(file_id),
            r.1 == (incoming > r.0),
            final(self)@ == (ServerState {
                write_seqs: if incoming > r.0 {
                    old(self)@.write_seqs.insert(file_id.id, incoming)
                } else {
                    old(self)@.write_seqs
                },
                ..old(self)@
            }),
    {
        let stored: u64 = match seqs_get(&self.file_write_seqs, file_id.id) {
            Some(s) => s,
            None => 0,
        };
        let (now, newer): (u64, bool) = write_seq_after(stored, incoming);
        if newer {
            seqs_insert(&mut self.file_write_seqs, file_id.id, now);
        }
        (stored, newer)
    }

    fn tombstone_age(&self, file_id: FileId, now_ms: u64) -> (r: Option<u64>)
        ensures
            r == self@.tombstone_age(file_id, now_ms),
    {
        match seqs_get(&self.delete_tombstones, file_id.id) {
            Some(t) => Some(since_exec(t, now_ms)),
            None => None,
        }
    }

    /// Takes in a record that a client puts.
    ///
    /// Only the leader does. A file deleted just now is not brought back, but the put is
    /// acknowledged, so that the client does not try again. While the file is being renamed its
    /// path is not settled, and the put has to wait.
    pub fn handle_put_file_metadata(
        &mut self,
        metadata: FileMetadata,
        covers_from_write_seq: u64,
        facts: PutFacts,
    ) -> (r: PutOutcome)
        ensures
            !facts.is_leader ==> final(self)@ == old(self)@ && r is Answer && match r->Answer_0 {
                Response::NotLeader { leader_addr } => leader_addr == facts.leader_addr,
                _ => false,
            },
            facts.is_leader && old(self)@.just_deleted(metadata@.id, facts.now_ms) ==> final(self)@
                == old(self)@ && r is Answer && r->Answer_0.acknowledges(),
            facts.is_leader && !old(self)@.just_deleted(metadata@.id, facts.now_ms) && old(
                self,
            )@.pending_renames.contains(metadata@.id.id) ==> final(self)@ == old(self)@ && r
                == PutOutcome::WaitForRename,
            facts.is_leader && !old(self)@.just_deleted(metadata@.id, facts.now_ms) && !old(
                self,
            )@.pending_renames.contains(metadata@.id.id) ==> r is Store && r->Store_1.acknowledges()
                && put_taken(
                old(self)@,
                metadata@,
                covers_from_write_seq,
                facts,
                r->Store_0,
                final(self)@,
            ),
            r is WaitForRename <==> put_waits(old(self)@, facts.is_leader, metadata@.id, facts.now_ms),
            r is Store <==> put_goes_in(old(self)@, facts.is_leader, metadata@.id, facts.now_ms),
    {
        let ghost rec = metadata@;
        let ghost facts0 = facts;
        let ghost s0 = self@;
        let PutFacts { is_leader, leader_addr, known_path, present, now_ms } = facts;
        let id: FileId = metadata.id;
        let forget_tombstone: bool = match put_admission(
            is_leader,
            leader_addr,
            self.tombstone_age(id, now_ms),
        ) {
            PutAdmission::Answer(response) => {
                return PutOutcome::Answer(response);
            },
            PutAdmission::Take { forget_tombstone } => forget_tombstone,
        };
        if files_set_contains(&self.pending_renames, id.id) {
            return PutOutcome::WaitForRename;
        }
        if forget_tombstone {
            seqs_remove(&mut self.delete_tombstones, id.id);
        }
        assert(self@.tombstones =~= s0.tombstones.remove(id.id));
        let incoming: u64 = metadata.write_seq;
        let (stored, _): (u64, bool) = self.note_write_seq(id, incoming);
        let missing: Option<(u64, u64)> = detect_metadata_write_seq_gap(
            stored,
            covers_from_write_seq,
            incoming,
        );
        let out: FileMetadata = match self.chunk_map.entry(id) {
            Some(e) => reconcile_put(metadata, known_path, Some(&e.0)),
            None => reconcile_put(metadata, known_path, None),
        };
        let flags: Vec<bool> = flag_present(&out.chunk_locations, &present);
        self.chunk_map.chunk_map_update(&out, &flags);
        self.recent_writes.record_recent_write(out.clone(), now_ms);
        let (dirty, commit_now): (bool, bool) = put_follow_up(&out);
        if dirty {
            records_insert(&mut self.pending_broadcasts, id.id, out.clone());
            files_set_insert(&mut self.pending_metadata_writes, id.id);
        }
        let taken: Taken = Taken { metadata: out, commit_now, missing };
        assert(put_taken(s0, rec, covers_from_write_seq, facts0, taken, self@));
        PutOutcome::Store(taken, Response::Done { data: None })
    }

    fn take_replica(&mut self, metadata: FileMetadata, present: &Vec<ChunkId>) -> (out: FileMetadata)
        ensures
            replica_taken(old(self)@, metadata@, present@, out@, final(self)@),
    {
        let id: FileId = metadata.id;
        let (_, newer): (u64, bool) = self.note_write_seq(id, metadata.write_seq);
        let out: FileMetadata = match self.chunk_map.entry(id) {
            Some(e) => reconcile_replicated(metadata, Some(&e.0), newer),
            None => reconcile_replicated(metadata, None, newer),
        };
        let flags: Vec<bool> = flag_present(&out.chunk_locations, present);
        self.chunk_map.chunk_map_update(&out, &flags);
        out
    }

    /// Takes in a record that a peer replicates. The request is acknowledged in any case; a
    /// record of a file that was deleted just now goes no further, and an old tombstone is
    /// forgotten.
    pub fn handle_replicate_metadata(
        &mut self,
        metadata: FileMetadata,
        ttl: u8,
        facts: ReplicaFacts,
    ) -> (r: Option<Replicated>)
        ensures
            old(self)@.just_deleted(metadata@.id, facts.now_ms) ==> r is None && final(self)@
                == old(self)@,
            !old(self)@.just_deleted(metadata@.id, facts.now_ms) ==> {
                let forgot = ServerState {
                    tombstones: old(self)@.tombstones.remove(metadata@.id.id),
                    ..old(self)@
                };
                let queued = ttl > 0 && !facts.is_leader && !facts.leader_is_self;
                &&& r is Some
                &&& (r->0).queued == queued
                &&& (r->0).forward_ttl == (if ttl > 0 {
                    Some((ttl - 1) as u8)
                } else {
                    None
                })
                &&& replica_taken(
                    forgot,
                    metadata@,
                    facts.present@,
                    (r->0).metadata@,
                    (ServerState { forwards: forgot.forwards, ..final(self)@ }),
                )
                &&& final(self)@.forwards == (if queued {
                    not_of(forgot.forwards, metadata@.id).push(((r->0).metadata@, facts.now_ms))
                } else {
                    forgot.forwards
                })
            },
            r is Some ==> {
                let queued = crate::metadata::queued_for_leader(
                    ttl,
                    facts.is_leader,
                    facts.leader_is_self,
                );
                &&& (r->0).queued == queued
                &&& (r->0).forward_ttl == crate::metadata::hops_left(ttl)
                &&& final(self)@.forwards == forwards_after(
                    old(self)@.forwards,
                    (r->0).metadata@,
                    queued,
                    facts.now_ms,
                )
            },
    {
        let ghost s0 = self@;
        let id: FileId = metadata.id;
        let g: Grave = tombstone(self.tombstone_age(id, facts.now_ms));
        if g == Grave::Fresh {
            return None;
        }
        if g == Grave::Expired {
            seqs_remove(&mut self.delete_tombstones, id.id);
        }
        assert(self@.tombstones =~= s0.tombstones.remove(id.id));
        let ghost forgot = self@;
        assert(forgot == (ServerState { tombstones: s0.tombstones.remove(id.id), ..s0 }));
        let out: FileMetadata = self.take_replica(metadata, &facts.present);
        let ghost mid = self@;
        let queued: bool = queues_for_leader(ttl, facts.is_leader, facts.leader_is_self);
        if queued {
            self.forward_queue.enqueue(out.clone(), facts.now_ms);
        }
        assert(mid == (ServerState { forwards: forgot.forwards, ..self@ }));
        Some(Replicated { metadata: out, forward_ttl: forwarded_ttl(ttl), queued })
    }

    /// Takes in a batch of records that a peer replicates, and hands back what is to be stored.
    pub fn handle_replicate_metadata_batch(
        &mut self,
        items: &Vec<FileMetadata>,
        present: &Vec<ChunkId>,
        now_ms: u64,
    ) -> (out: Vec<FileMetadata>)
        ensures
            replicas_taken(old(self)@, recs(items@), present@, now_ms, recs(out@), final(self)@),
    {
        let ghost all = recs(items@);
        let ghost s0 = self@;
        let mut out: Vec<FileMetadata> = Vec::new();
        let mut i: usize = 0;
        assert(all.take(0) =~= Seq::<FileRec>::empty());
        while i < items.len()
            invariant
                i <= items@.len(),
                all == recs(items@),
                s0 == old(self)@,
                self@.tombstones == s0.tombstones,
                replicas_taken(s0, all.take(i as int), present@, now_ms, recs(out@), self@),
            decreases items@.len() - i,
        {
            let ghost mid = self@;
            let ghost before = recs(out@);
            proof {
                assert(all.take(i + 1).drop_last() =~= all.take(i as int));
                assert(all.take(i + 1).last() == items@[i as int]@);
            }
            if tombstone(self.tombstone_age(items[i].id, now_ms)) != Grave::Fresh {
                let m: FileMetadata = self.take_replica(items[i].clone(), present);
                let ghost mv = m@;
                out.push(m);
                proof {
                    assert(recs(out@) =~= before.push(mv));
                    assert(recs(out@).drop_last() =~= before);
                    assert(replica_taken(
                        mid,
                        all.take(i + 1).last(),
                        present@,
                        recs(out@).last(),
                        self@,
                    ));
                }
            }
            i += 1;
        }
        assert(all.take(i as int) =~= all);
        out
    }

    fn flag_buried(&self, items: &Vec<FileMetadata>) -> (r: Vec<bool>)
        ensures
            r@ == buried_flags(self@, recs(items@)),
    {
        let ghost want = buried_flags(self@, recs(items@));
        let mut out: Vec<bool> = Vec::new();
        let mut i: usize = 0;
        while i < items.len()
            invariant
                i <= items@.len(),
                want == buried_flags(self@, recs(items@)),
                out@ =~= want.take(i as int),
            decreases items@.len() - i,
        {
            assert(recs(items@)[i as int] == items@[i as int]@);
            out.push(seqs_get(&self.delete_tombstones, items[i].id.id).is_some());
            i += 1;
        }
        assert(want.take(i as int) =~= want);
        out
    }

    /// The records of a disseminated batch that are to be stored: those of files without a
    /// tombstone, each reconciled with what the chunk map holds.
    pub fn admit_disseminated(&self, items: Vec<FileMetadata>) -> (r: Vec<FileMetadata>)
        ensures
            recs(r@) == alive(recs(items@), buried_flags(self@, recs(items@))).map_values(
                |f: FileRec| disseminated(f, self@.held(f.id)),
            ),
            recs(r@) == admitted(self@, recs(items@)),
    {
        let buried: Vec<bool> = self.flag_buried(&items);
        let live: Vec<FileMetadata> = drop_marked(items, &buried);
        let ghost ls = recs(live@);
        let ghost want = ls.map_values(|f: FileRec| disseminated(f, self@.held(f.id)));
        let mut out: Vec<FileMetadata> = Vec::new();
        let mut i: usize = 0;
        while i < live.len()
            invariant
                i <= live@.len(),
                ls == recs(live@),
                want == ls.map_values(|f: FileRec| disseminated(f, self@.held(f.id))),
                recs(out@) =~= want.take(i as int),
            decreases live@.len() - i,
        {
            let ghost before = recs(out@);
            assert(ls[i as int] == live@[i as int]@);
            let m: FileMetadata = match self.chunk_map.entry(live[i].id) {
                Some(e) => reconcile_disseminated(live[i].clone(), Some(&e.0)),
                None => reconcile_disseminated(live[i].clone(), None),
            };
            let ghost mv = m@;
            assert(mv == disseminated(ls[i as int], self@.held(ls[i as int].id)));
            out.push(m);
            assert(recs(out@) =~= before.push(mv));
            i += 1;
        }
        assert(want.take(i as int) =~= want);
        out
    }

    /// The records of a batch that the worker stores. Records of deleted files are dropped
    /// before anything is folded, so that nothing of them gets into another record; but their
    /// files are settled too, or a rename would wait for them for ever.
    pub fn store_batch<F: Fn(&FileMetadata, &FileMetadata) -> FileMetadata>(
        &self,
        items: Vec<FileMetadata>,
        batching: bool,
        merge: F,
    ) -> (r: Vec<FileMetadata>)
        requires
            forall|a: FileMetadata, b: FileMetadata| call_requires(merge, (&a, &b)),
        ensures
            batching ==> exists|live: Seq<FileMetadata>|
                recs(live) == alive(recs(items@), buried_flags(self@, recs(items@)))
                    && #[trigger] is_fold(merge, live, r@),
            !batching ==> recs(r@) == alive(recs(items@), buried_flags(self@, recs(items@))),
    {
        let buried: Vec<bool> = self.flag_buried(&items);
        let live: Vec<FileMetadata> = drop_marked(items, &buried);
        if batching {
            let ghost lv = live@;
            let folded: Vec<FileMetadata> = fold_metadata_batch(live, merge);
            assert(is_fold(merge, lv, folded@));
            folded
        } else {
            live
        }
    }

    /// The worker is done with a batch: nothing of its files waits to be stored any more, whether
    /// it was stored or dropped.
    pub fn batch_stored(&mut self, files: &Vec<FileId>)
        ensures
            final(self)@ == (ServerState {
                pending_writes: final(self)@.pending_writes,
                ..old(self)@
            }),
            forall|f: u128| #[trigger]
                final(self)@.pending_writes.contains(f) <==> old(self)@.pending_writes.contains(f)
                    && !files@.contains(FileId { id: f }),
    {
        let mut i: usize = 0;
        while i < files.len()
            invariant
                i <= files@.len(),
                self@ == (ServerState { pending_writes: self@.pending_writes, ..old(self)@ }),
                forall|f: u128| #[trigger]
                    self@.pending_writes.contains(f) <==> old(self)@.pending_writes.contains(f)
                        && !files@.take(i as int).contains(FileId { id: f }),
            decreases files@.len() - i,
        {
            let ghost before = self@.pending_writes;
            files_set_remove(&mut self.pending_metadata_writes, files[i].id);
            proof {
                let done = files@.take(i as int);
                let next = files@.take(i + 1);
                assert forall|f: u128| #[trigger]
                    self@.pending_writes.contains(f) <==> old(self)@.pending_writes.contains(f)
                        && !next.contains(FileId { id: f }) by {
                    assert(next =~= done.push(files@[i as int]));
                    if done.contains(FileId { id: f }) {
                        let k = choose|k: int| 0 <= k < done.len() && done[k] == (FileId { id: f });
                        assert(next[k] == (FileId { id: f }));
                    }
                    if next.contains(FileId { id: f }) && f != files@[i as int].id {
                        let k = choose|k: int| 0 <= k < next.len() && next[k] == (FileId { id: f });
                        assert(done[k] == (FileId { id: f }));
                    }
                    if f == files@[i as int].id {
                        assert(next[i as int] == (FileId { id: f }));
                    }
                    assert(before.contains(f) <==> old(self)@.pending_writes.contains(f)
                        && !done.contains(FileId { id: f }));
                }
            }
            i += 1;
        }
        assert(files@.take(i as int) =~= files@);
    }

    /// Whether a record of the file was acknowledged but is not stored yet. A rename has to wait
    /// for it, or it would start from an outdated record.
    pub fn write_is_pending(&self, file_id: FileId) -> (r: bool)
        ensures
            r == self@.pending_writes.contains(file_id.id),
    {
        files_set_contains(&self.pending_metadata_writes, file_id.id)
    }

    /// A rename of the file begins: puts of it wait from now on.
    pub fn rename_begins(&mut self, file_id: FileId)
        ensures
            final(self)@ == (ServerState {
                pending_renames: old(self)@.pending_renames.insert(file_id.id),
                ..old(self)@
            }),
    {
        files_set_insert(&mut self.pending_renames, file_id.id);
    }

    /// The rename of the file is over, however it ended.
    pub fn rename_ends(&mut self, file_id: FileId)
        ensures
            final(self)@ == (ServerState {
                pending_renames: old(self)@.pending_renames.remove(file_id.id),
                ..old(self)@
            }),
    {
        files_set_remove(&mut self.pending_renames, file_id.id);
    }

    /// Marks a file as deleted, so that nothing under way brings it back, and takes it from the
    /// records that are about to be pushed.
    pub fn bury(&mut self, file_id: FileId, now_ms: u64)
        ensures
            final(self)@ == (ServerState {
                tombstones: old(self)@.tombstones.insert(file_id.id, now_ms),
                dirty: old(self)@.dirty.remove(file_id.id),
                ..old(self)@
            }),
    {
        seqs_insert(&mut self.delete_tombstones, file_id.id, now_ms);
        records_remove(&mut self.pending_broadcasts, file_id.id);
    }

    /// Takes in that a peer deleted a file: it is buried, and its chunks are forgotten. Says with
    /// how many hops the deletion travels on, if it does.
    pub fn handle_delete_metadata(&mut self, file_id: FileId, ttl: u8, now_ms: u64) -> (r: (
        Response,
        Option<u8>,
    ))
        ensures
            r.0.acknowledges(),
            r.1 == (if ttl > 0 {
                Some((ttl - 1) as u8)
            } else {
                None
            }),
            deleted(old(self)@, file_id, now_ms, final(self)@),
            r.1 == crate::metadata::hops_left(ttl),
    {
        self.bury(file_id, now_ms);
        self.forget_file(file_id);
        (Response::Done { data: None }, forwarded_ttl(ttl))
    }

    /// Takes in that the leader has a file's chunks deleted: the file is buried and forgotten, and
    /// the chunks need no tombstone any more.
    pub fn handle_delete_chunks_batch(
        &mut self,
        file_id: FileId,
        chunk_ids: &Vec<ChunkId>,
        now_ms: u64,
    ) -> (r: Response)
        ensures
            r.acknowledges(),
            deleted(
                old(self)@,
                file_id,
                now_ms,
                (ServerState { chunk_tombstones: old(self)@.chunk_tombstones, ..final(self)@ }),
            ),
            forall|c: ChunkId| #[trigger]
                final(self)@.chunk_tombstones.contains(c.hash) <==> old(
                    self,
                )@.chunk_tombstones.contains(c.hash) && !chunk_ids@.contains(c),
    {
        self.bury(file_id, now_ms);
        self.forget_file(file_id);
        let ghost mid = self@;
        self.unbury_chunks(chunk_ids);
        assert(mid == (ServerState { chunk_tombstones: mid.chunk_tombstones, ..self@ }));
        Response::Done { data: None }
    }

    fn unbury_chunks(&mut self, chunk_ids: &Vec<ChunkId>)
        ensures
            final(self)@ == (ServerState {
                chunk_tombstones: final(self)@.chunk_tombstones,
                ..old(self)@
            }),
            forall|c: ChunkId| #[trigger]
                final(self)@.chunk_tombstones.contains(c.hash) <==> old(
                    self,
                )@.chunk_tombstones.contains(c.hash) && !chunk_ids@.contains(c),
    {
        let mut i: usize = 0;
        while i < chunk_ids.len()
            invariant
                i <= chunk_ids@.len(),
                self@ == (ServerState { chunk_tombstones: self@.chunk_tombstones, ..old(self)@ }),
                forall|c: ChunkId| #[trigger]
                    self@.chunk_tombstones.contains(c.hash) <==> old(
                        self,
                    )@.chunk_tombstones.contains(c.hash) && !chunk_ids@.take(i as int).contains(c),
            decreases chunk_ids@.len() - i,
        {
            let ghost before = self@.chunk_tombstones;
            chunks_set_remove(&mut self.chunk_tombstones, chunk_ids[i].hash);
            proof {
                let done = chunk_ids@.take(i as int);
                let next = chunk_ids@.take(i + 1);
                assert forall|c: ChunkId| #[trigger]
                    self@.chunk_tombstones.contains(c.hash) <==> old(
                        self,
                    )@.chunk_tombstones.contains(c.hash) && !next.contains(c) by {
                    assert(next =~= done.push(chunk_ids@[i as int]));
                    if done.contains(c) {
                        let k = choose|k: int| 0 <= k < done.len() && done[k] == c;
                        assert(next[k] == c);
                    }
                    if next.contains(c) && c != chunk_ids@[i as int] {
                        let k = choose|k: int| 0 <= k < next.len() && next[k] == c;
                        assert(done[k] == c);
                    }
                    if c == chunk_ids@[i as int] {
                        assert(next[i as int] == c);
                    }
                    assert(before.contains(c.hash) <==> old(self)@.chunk_tombstones.contains(
                        c.hash,
                    ) && !done.contains(c));
                    assert(c.hash == chunk_ids@[i as int].hash ==> c == chunk_ids@[i as int]);
                }
            }
            i += 1;
        }
        assert(chunk_ids@.take(i as int) =~= chunk_ids@);
    }

    /// Marks a chunk that nobody may copy from here any more.
    pub fn handle_tombstone_chunk(&mut self, chunk_id: ChunkId) -> (r: Response)
        ensures
            r.acknowledges(),
            final(self)@ == (ServerState {
                chunk_tombstones: old(self)@.chunk_tombstones.insert(chunk_id.hash),
                ..old(self)@
            }),
    {
        chunks_set_insert(&mut self.chunk_tombstones, chunk_id.hash);
        Response::Done { data: None }
    }

    /// A chunk is deleted: its tombstone is not needed any more. Acknowledged whether or not the
    /// chunk was here.
    pub fn handle_delete_chunk(&mut self, chunk_id: ChunkId) -> (r: Response)
        ensures
            r.acknowledges(),
            final(self)@ == (ServerState {
                chunk_tombstones: old(self)@.chunk_tombstones.remove(chunk_id.hash),
                ..old(self)@
            }),
    {
        chunks_set_remove(&mut self.chunk_tombstones, chunk_id.hash);
        Response::Done { data: None }
    }

    /// Answers which of the chunks are here: those on disk that have no tombstone.
    pub fn handle_has_chunks(&self, chunk_ids: &Vec<ChunkId>, on_disk: &Vec<bool>) -> (r: Response)
        requires
            chunk_ids@.len() == on_disk@.len(),
        ensures
            match r {
                Response::BoolVec { values } => values@ =~= Seq::new(
                    chunk_ids@.len(),
                    |i: int|
                        on_disk@[i] && !self@.chunk_tombstones.contains(chunk_ids@[i].hash),
                ),
                _ => false,
            },
            match r {
                Response::BoolVec { values } => values@.len() == chunk_ids@.len() && forall|i: int|
                    0 <= i < values@.len() ==> #[trigger] values@[i] == serves(
                        self@,
                        chunk_ids@[i],
                        on_disk@[i],
                    ),
                _ => false,
            },
    {
        let mut buried: Vec<bool> = Vec::new();
        let mut i: usize = 0;
        while i < chunk_ids.len()
            invariant
                i <= chunk_ids@.len(),
                buried@.len() == i,
                forall|k: int|
                    0 <= k < i ==> #[trigger] buried@[k] == self@.chunk_tombstones.contains(
                        chunk_ids@[k].hash,
                    ),
            decreases chunk_ids@.len() - i,
        {
            buried.push(chunks_set_contains(&self.chunk_tombstones, chunk_ids[i].hash));
            i += 1;
        }
        Response::BoolVec { values: crate::locations::has_chunks(on_disk, &buried) }
    }

    /// The chunks that have a tombstone, in no particular order.
    pub fn tombstoned_chunks(&self) -> (r: Vec<ChunkId>)
        ensures
            r@.no_duplicates(),
            forall|c: ChunkId| #[trigger]
                r@.contains(c) <==> self@.chunk_tombstones.contains(c.hash),
    {
        let list: Vec<[u8; 32]> = chunks_set_list(&self.chunk_tombstones);
        let mut out: Vec<ChunkId> = Vec::new();
        let mut i: usize = 0;
        while i < list.len()
            invariant
                i <= list@.len(),
                out@.len() == i,
                forall|k: int| 0 <= k < i ==> (#[trigger] out@[k]).hash == list@[k],
            decreases list@.len() - i,
        {
            out.push(ChunkId::from_hash(list[i]));
            i += 1;
        }
        proof {
            assert forall|a: int, b: int| 0 <= a < out@.len() && 0 <= b < out@.len() && a
                != b implies out@[a] != out@[b] by {
                assert(out@[a].hash == list@[a]);
                assert(out@[b].hash == list@[b]);
            }
            assert forall|c: ChunkId| #[trigger]
                out@.contains(c) <==> self@.chunk_tombstones.contains(c.hash) by {
                if out@.contains(c) {
                    let k = choose|k: int| 0 <= k < out@.len() && out@[k] == c;
                    assert(list@[k] == c.hash);
                    assert(list@.to_set().contains(c.hash));
                }
                if self@.chunk_tombstones.contains(c.hash) {
                    assert(list@.to_set().contains(c.hash));
                    let k = choose|k: int| 0 <= k < list@.len() && list@[k] == c.hash;
                    assert(out@[k].hash == c.hash);
                    assert(out@[k] == c);
                }
            }
        }
        out
    }

    /// Forgets the tombstones of chunks that are gone from disk.
    pub fn drop_spent_tombstones(&mut self, chunks: &Vec<ChunkId>, on_disk: &Vec<bool>)
        requires
            chunks@.len() == on_disk@.len(),
        ensures
            final(self)@ == (ServerState {
                chunk_tombstones: final(self)@.chunk_tombstones,
                ..old(self)@
            }),
            forall|c: ChunkId| #[trigger]
                final(self)@.chunk_tombstones.contains(c.hash) <==> old(
                    self,
                )@.chunk_tombstones.contains(c.hash) && !crate::metadata::spent(
                    chunks@,
                    on_disk@,
                ).contains(c),
    {
        let gone: Vec<ChunkId> = crate::metadata::spent_chunk_tombstones(chunks, on_disk);
        self.unbury_chunks(&gone);
    }

    /// The records to push to the followers now: of every file that changed and was not deleted
    /// just now, with the locations that the chunk map holds. A node that does not lead pushes
    /// nothing. Either way the list of changed files starts anew.
    pub fn drain_dirty(&mut self, is_leader: bool, now_ms: u64) -> (r: Vec<FileMetadata>)
        ensures
            final(self)@ == (ServerState {
                dirty: Map::<u128, FileRec>::empty(),
                ..old(self)@
            }),
            !is_leader ==> r@.len() == 0,
            is_leader ==> exists|listed: Seq<(u128, FileRec)>| #[trigger]
                lists_records(old(self)@.dirty, listed) && recs(r@) == to_push(
                    dressed(old(self)@, listed, now_ms),
                ),
    {
        let ghost s0 = self@;
        if !is_leader {
            records_clear(&mut self.pending_broadcasts);
            return Vec::new();
        }
        let listed: Vec<(u128, FileMetadata)> = records_list(&self.pending_broadcasts);
        let ghost want = dressed(s0, keyed(listed@), now_ms);
        let mut items: Vec<Dirty> = Vec::new();
        let mut i: usize = 0;
        while i < listed.len()
            invariant
                i <= listed@.len(),
                s0 == self@,
                want == dressed(s0, keyed(listed@), now_ms),
                dirties(items@) =~= want.take(i as int),
            decreases listed@.len() - i,
        {
            let id: FileId = FileId { id: listed[i].0 };
            let ghost before = dirties(items@);
            assert(keyed(listed@)[i as int] == (listed@[i as int].0, listed@[i as int].1@));
            let held: Option<Vec<ChunkLocation>> = match self.chunk_map.entry(id) {
                Some(e) => Some(e.0),
                None => None,
            };
            let d: Dirty = Dirty {
                metadata: listed[i].1.clone(),
                tombstone_age_ms: self.tombstone_age(id, now_ms),
                held,
            };
            let ghost dv = d@;
            assert(dv == dressed_one(s0, keyed(listed@)[i as int], now_ms));
            items.push(d);
            assert(dirties(items@) =~= before.push(dv));
            i += 1;
        }
        assert(want.take(i as int) =~= want);
        let out: Vec<FileMetadata> = healer_batch(&items);
        records_clear(&mut self.pending_broadcasts);
        assert(lists_records(s0.dirty, keyed(listed@)));
        out
    }

    /// A patch was recorded: its token and the chunk that it applies to are part of it from now
    /// on, and the token that it retired is not part of anything any more.
    pub fn patch_recorded(
        &mut self,
        token: ChunkId,
        base: ChunkId,
        retired: Option<ChunkId>,
        file_id: FileId,
        chunk_idx: u64,
    )
        ensures
            final(self)@ == (ServerState {
                patches: (match retired {
                    Some(t) => old(self)@.patches.remove(t.hash),
                    None => old(self)@.patches,
                }).insert(token.hash, (file_id.id, chunk_idx)).insert(
                    base.hash,
                    (file_id.id, chunk_idx),
                ),
                ..old(self)@
            }),
            final(self)@.patches == patches_after(
                old(self)@.patches,
                token,
                base,
                retired,
                file_id,
                chunk_idx,
            ),
    {
        match retired {
            Some(t) => slots_remove(&mut self.pending_patch_ids, t.hash),
            None => {},
        }
        slots_insert(&mut self.pending_patch_ids, token.hash, (file_id.id, chunk_idx));
        slots_insert(&mut self.pending_patch_ids, base.hash, (file_id.id, chunk_idx));
    }

    /// A patch was consolidated: the chunk that it applied to is gone. Its token stays known.
    pub fn patch_folded(&mut self, base: ChunkId)
        ensures
            final(self)@ == (ServerState {
                patches: old(self)@.patches.remove(base.hash),
                ..old(self)@
            }),
    {
        slots_remove(&mut self.pending_patch_ids, base.hash);
    }

    /// A peer consolidated a patch: its token is known here from now on, provided that what it
    /// stands for could be recorded.
    pub fn handle_replicate_patch_fold(
        &mut self,
        token: ChunkId,
        file_id: FileId,
        chunk_idx: u64,
        failure: Option<String>,
    ) -> (r: Response)
        ensures
            match failure {
                Some(why) => r.refuses(
                    "Failed to record patch fold: "@ + why@,
                    crate::types::ErrorCode::InternalError,
                ) && final(self)@ == old(self)@,
                None => r.acknowledges() && final(self)@ == (ServerState {
                    patches: old(self)@.patches.insert(token.hash, (file_id.id, chunk_idx)),
                    ..old(self)@
                }),
            },
    {
        match failure {
            Some(why) => crate::metadata::failed("Failed to record patch fold: ", why.as_str()),
            None => {
                slots_insert(&mut self.pending_patch_ids, token.hash, (file_id.id, chunk_idx));
                Response::Done { data: None }
            },
        }
    }

    /// The file and the slot of the patch that a chunk is part of, if it is part of one.
    pub fn patch_slot(&self, chunk_id: ChunkId) -> (r: Option<(FileId, u64)>)
        ensures
            r == (if self@.patches.dom().contains(chunk_id.hash) {
                Some(
                    (
                        FileId { id: self@.patches[chunk_id.hash].0 },
                        self@.patches[chunk_id.hash].1,
                    ),
                )
            } else {
                None
            }),
    {
        match slots_get(&self.pending_patch_ids, chunk_id.hash) {
            Some((file, idx)) => Some((FileId { id: file }, idx)),
            None => None,
        }
    }

    /// The cluster was written to.
    pub fn note_cluster_write(&mut self, now_ms: u64)
        ensures
            final(self)@ == (ServerState { last_write_ms: now_ms, ..old(self)@ }),
    {
        self.last_cluster_write_ms = now_ms;
    }

    /// When the cluster was last written to; zero if it was not yet.
    pub fn last_cluster_write_ms(&self) -> (r: u64)
        ensures
            r == self@.last_write_ms,
    {
        self.last_cluster_write_ms
    }

    /// Takes stored records into the chunk map.
    pub fn take_stored(&mut self, stored: &Vec<FileMetadata>, present: &Vec<ChunkId>)
        ensures
            records_taken(old(self)@.chunks, recs(stored@), present@, final(self)@.chunks),
            final(self)@ == (ServerState { chunks: final(self)@.chunks, ..old(self)@ }),
    {
        let ghost all = recs(stored@);
        let mut i: usize = 0;
        assert(all.take(0) =~= Seq::<FileRec>::empty());
        while i < stored.len()
            invariant
                i <= stored@.len(),
                all == recs(stored@),
                records_taken(old(self)@.chunks, all.take(i as int), present@, self@.chunks),
                self@ == (ServerState { chunks: self@.chunks, ..old(self)@ }),
            decreases stored@.len() - i,
        {
            let ghost mid = self@.chunks;
            proof {
                assert(all.take(i + 1).drop_last() =~= all.take(i as int));
                assert(all.take(i + 1).last() == stored@[i as int]@);
            }
            let flags: Vec<bool> = flag_present(&stored[i].chunk_locations, present);
            self.chunk_map.chunk_map_update(&stored[i], &flags);
            proof {
                let items = all.take(i + 1);
                assert(records_taken(old(self)@.chunks, items.drop_last(), present@, mid));
                assert(record_taken(
                    mid,
                    items.last(),
                    present_flags(items.last().chunk_locations, present@),
                    self@.chunks,
                ));
                assert(items.len() > 0);
                assert(records_taken(old(self)@.chunks, items, present@, self@.chunks));
            }
            i += 1;
        }
        assert(all.take(i as int) =~= all);
    }

    /// Takes a stored location into the chunk map, for the file that the report named.
    pub fn take_location(&mut self, file_id: Option<FileId>, location: &ChunkLocation)
        ensures
            location_taken(old(self)@.chunks, file_id, location@, final(self)@.chunks),
            final(self)@ == (ServerState { chunks: final(self)@.chunks, ..old(self)@ }),
    {
        match file_id {
            Some(f) => self.chunk_map.chunk_map_update_location_for_file(f, location),
            None => self.chunk_map.chunk_map_update_location(location),
        }
    }

    /// Takes the stored locations of a batch into the chunk map.
    pub fn take_locations(&mut self, stored: &Vec<ChunkLocation>)
        ensures
            locations_taken(old(self)@.chunks, locs(stored@), final(self)@.chunks),
            final(self)@ == (ServerState { chunks: final(self)@.chunks, ..old(self)@ }),
    {
        let ghost all = locs(stored@);
        let mut i: usize = 0;
        assert(all.take(0) =~= Seq::<Loc>::empty());
        while i < stored.len()
            invariant
                i <= stored@.len(),
                all == locs(stored@),
                locations_taken(old(self)@.chunks, all.take(i as int), self@.chunks),
                self@ == (ServerState { chunks: self@.chunks, ..old(self)@ }),
            decreases stored@.len() - i,
        {
            let ghost mid = self@.chunks;
            proof {
                assert(all.take(i + 1).drop_last() =~= all.take(i as int));
                assert(all.take(i + 1).last() == stored@[i as int]@);
            }
            self.take_location(stored[i].file_id, &stored[i]);
            proof {
                let items = all.take(i + 1);
                assert(locations_taken(old(self)@.chunks, items.drop_last(), mid));
                assert(location_taken(mid, items.last().file_id, items.last(), self@.chunks));
                assert(items.len() > 0);
                assert(locations_taken(old(self)@.chunks, items, self@.chunks));
            }
            i += 1;
        }
        assert(all.take(i as int) =~= all);
    }

    /// Points a file's slot at the identity that a patch gave its content.
    pub fn take_patch(
        &mut self,
        file_id: FileId,
        chunk_idx: Option<u64>,
        old_chunk_id: ChunkId,
        new_chunk_id: ChunkId,
        size: usize,
        written_at_ms: u64,
    )
        ensures
            final(self)@ == (ServerState {
                chunks: Chunks {
                    files: crate::chunk_map::files_patched(
                        old(self)@.chunks.files,
                        file_id.id,
                        chunk_idx,
                        old_chunk_id,
                        new_chunk_id,
                        size,
                        written_at_ms,
                    ),
                    owner: old(self)@.chunks.owner,
                },
                ..old(self)@
            }),
    {
        self.chunk_map.update_chunk_map_after_patch(
            file_id,
            chunk_idx,
            old_chunk_id,
            new_chunk_id,
            size,
            written_at_ms,
        );
    }

    /// Forgets a deleted file's chunks.
    pub fn forget_file(&mut self, file_id: FileId)
        ensures
            final(self)@.chunks.files == old(self)@.chunks.files.remove(file_id.id),
            final(self)@.chunks.owner == (if old(self)@.chunks.files.dom().contains(file_id.id) {
                crate::chunk_map::released(
                    old(self)@.chunks.owner,
                    old(self)@.chunks.files[file_id.id].0,
                )
            } else {
                old(self)@.chunks.owner
            }),
            final(self)@ == (ServerState { chunks: final(self)@.chunks, ..old(self)@ }),
    {
        self.chunk_map.chunk_map_remove(&file_id);
    }

    /// Sets a file's entry in the chunk map from its stored record, as a repair or a lookup that
    /// found no entry does.
    pub fn set_chunk_map_entry(&mut self, file_id: FileId, list: Vec<ChunkLocation>, write_seq: u64)
        ensures
            final(self)@ == (ServerState {
                chunks: Chunks {
                    files: old(self)@.chunks.files.insert(file_id.id, (locs(list@), write_seq)),
                    owner: old(self)@.chunks.owner,
                },
                ..old(self)@
            }),
    {
        self.chunk_map.set_entry(file_id, list, write_seq);
    }

    /// Merges a file's stored record in, as when the state is built up at startup. Its write
    /// sequence is noted if it has one.
    pub fn rebuild_chunk_map_from_metadata(&mut self, file: &FileMetadata)
        ensures
            final(self)@.chunks.files == (if file@.chunk_locations.len() > 0 {
                old(self)@.chunks.files.insert(
                    file@.id.id,
                    crate::chunk_map::rebuilt_entry(old(self)@.chunks.files, file@),
                )
            } else {
                old(self)@.chunks.files
            }),
            final(self)@.chunks.owner == (if file@.chunk_locations.len() > 0 {
                crate::chunk_map::claimed(
                    old(self)@.chunks.owner,
                    crate::chunk_map::rebuilt_entry(old(self)@.chunks.files, file@).0,
                    file@.id.id,
                )
            } else {
                old(self)@.chunks.owner
            }),
            final(self)@ == (ServerState {
                chunks: final(self)@.chunks,
                write_seqs: if file@.write_seq > 0 {
                    old(self)@.write_seqs.insert(file@.id.id, file@.write_seq)
                } else {
                    old(self)@.write_seqs
                },
                ..old(self)@
            }),
    {
        self.chunk_map.rebuild_from_record(file);
        if file.write_seq > 0 {
            seqs_insert(&mut self.file_write_seqs, file.id.id, file.write_seq);
        }
    }

    /// The records to tell around now.
    pub fn gossip_batch(&mut self, now_ms: u64) -> (r: Vec<FileMetadata>)
        ensures
            final(self)@ == (ServerState {
                recent: crate::loops::younger(
                    old(self)@.recent,
                    now_ms,
                    (2 * crate::loops::GOSSIP_WINDOW_MS) as u64,
                ),
                ..old(self)@
            }),
            recs(r@) == crate::loops::younger(
                final(self)@.recent,
                now_ms,
                crate::loops::GOSSIP_WINDOW_MS,
            ).map_values(|e: (FileRec, u64)| e.0),
    {
        self.recent_writes.gossip_batch(now_ms)
    }

    /// The oldest record that waits to be forwarded.
    pub fn next_forward(&self) -> (r: Option<(FileMetadata, u64)>)
        ensures
            match r {
                Some(e) => self@.forwards.len() > 0 && self@.forwards[0] == (e.0@, e.1),
                None => self@.forwards.len() == 0,
            },
    {
        self.forward_queue.front()
    }

    /// The oldest record that waits to be forwarded is dealt with.
    pub fn forward_done(&mut self)
        ensures
            final(self)@ == (ServerState {
                forwards: if old(self)@.forwards.len() > 0 {
                    old(self)@.forwards.drop_first()
                } else {
                    old(self)@.forwards
                },
                ..old(self)@
            }),
    {
        self.forward_queue.pop_front();
    }
}

} // verus!
