//! The chunk map: for every file, where its chunks are, and for every chunk, whose it is.
use crate::loc_list::{
    chunk_map_find_by_idx, fills, holds_at, offset_sorted, partition_by_slot, parts_at,
    sort_by_offset,
};
use crate::shared_maps::{
    file_entries, files_get, files_insert, files_keys, files_new, files_remove, owner_entries,
    owners_get, owners_insert, owners_new, owners_remove,
};
use crate::types::{
    clone_locs, locs, ChunkId, ChunkLocation, FileId, FileMetadata, FileRec, Loc,
};
use dashmap::DashMap;
use vstd::prelude::*;

verus! {

/// A file's entry: its locations and the write sequence they stand for.
pub type FileEntry = (Seq<Loc>, u64);

/// What the chunk map holds.
pub ghost struct Chunks {
    pub files: Map<u128, FileEntry>,
    pub owner: Map<[u8; 32], u128>,
}

/// The chunk map with its reverse index.
pub struct ChunkMap {
    files: DashMap<u128, (Vec<ChunkLocation>, u64)>,
    owners: DashMap<[u8; 32], u128>,
}

impl View for ChunkMap {
    type V = Chunks;

    closed spec fn view(&self) -> Chunks {
        Chunks { files: file_entries(self.files), owner: owner_entries(self.owners) }
    }
}

// ---------------------------------------------------------------------------
// Which of two locations for one slot is the newer.
// ---------------------------------------------------------------------------

/// A report for one slot replaces what the map holds there if it names the same chunk, or if it
/// does not come from an earlier write: by client write sequence where either side has one, by
/// write time where neither has.
pub open spec fn report_wins(held: Loc, report: Loc) -> bool {
    if held.chunk_id == report.chunk_id {
        true
    } else {
        match (report.client_write_seq, held.client_write_seq) {
            (Some(inc), Some(ext)) => inc >= ext,
            (Some(_), None) => true,
            (None, Some(_)) => false,
            (None, None) => or_zero(report.written_at) >= or_zero(held.written_at),
        }
    }
}

pub open spec fn or_zero(t: Option<u64>) -> u64 {
    match t {
        Some(v) => v,
        None => 0,
    }
}

/// A location out of a whole-file record is stale against the one held for its slot if it names
/// another chunk and comes from an earlier write. With neither sequence nor time to go by, it is
/// stale if its chunk is not on disk.
pub open spec fn record_is_stale(held: Loc, incoming: Loc, on_disk: bool) -> bool {
    held.chunk_id != incoming.chunk_id && match (incoming.client_write_seq, held.client_write_seq) {
        (Some(inc), Some(ext)) => inc < ext,
        (Some(_), None) => false,
        (None, Some(_)) => true,
        (None, None) => match incoming.written_at {
            Some(t) => or_zero(held.written_at) > t,
            None => !on_disk,
        },
    }
}

fn or_zero_exec(t: Option<u64>) -> (r: u64)
    ensures
        r == or_zero(t),
{
    match t {
        Some(v) => v,
        None => 0,
    }
}

fn report_wins_exec(held: &ChunkLocation, report: &ChunkLocation) -> (r: bool)
    ensures
        r == report_wins(held@, report@),
{
    if held.chunk_id == report.chunk_id {
        true
    } else {
        match (report.client_write_seq, held.client_write_seq) {
            (Some(inc), Some(ext)) => inc >= ext,
            (Some(_), None) => true,
            (None, Some(_)) => false,
            (None, None) => or_zero_exec(report.written_at) >= or_zero_exec(held.written_at),
        }
    }
}

fn record_is_stale_exec(held: &ChunkLocation, incoming: &ChunkLocation, on_disk: bool) -> (r: bool)
    ensures
        r == record_is_stale(held@, incoming@, on_disk),
{
    if held.chunk_id == incoming.chunk_id {
        return false;
    }
    match (incoming.client_write_seq, held.client_write_seq) {
        (Some(inc), Some(ext)) => inc < ext,
        (Some(_), None) => false,
        (None, Some(_)) => true,
        (None, None) => match incoming.written_at {
            Some(t) => or_zero_exec(held.written_at) > t,
            None => !on_disk,
        },
    }
}

// ---------------------------------------------------------------------------
// The reverse index.
// ---------------------------------------------------------------------------

/// The index after every listed chunk was recorded as belonging to `file`.
pub open spec fn claimed(owner: Map<[u8; 32], u128>, list: Seq<Loc>, file: u128) -> Map<
    [u8; 32],
    u128,
>
    decreases list.len(),
{
    if list.len() == 0 {
        owner
    } else {
        claimed(owner, list.drop_last(), file).insert(list.last().chunk_id.hash, file)
    }
}

/// The index after every listed chunk was struck from it.
pub open spec fn released(owner: Map<[u8; 32], u128>, list: Seq<Loc>) -> Map<[u8; 32], u128>
    decreases list.len(),
{
    if list.len() == 0 {
        owner
    } else {
        released(owner, list.drop_last()).remove(list.last().chunk_id.hash)
    }
}

/// Every chunk that was recorded for a file is found under it; the others are found where they
/// were before.
pub proof fn claimed_chunks_are_owned(
    owner: Map<[u8; 32], u128>,
    list: Seq<Loc>,
    file: u128,
    hash: [u8; 32],
)
    ensures
        (exists|i: int| 0 <= i < list.len() && (#[trigger] list[i]).chunk_id.hash == hash)
            ==> claimed(owner, list, file).dom().contains(hash) && claimed(
            owner,
            list,
            file,
        )[hash] == file,
        (forall|i: int| 0 <= i < list.len() ==> (#[trigger] list[i]).chunk_id.hash != hash) ==> (
        claimed(owner, list, file).dom().contains(hash) <==> owner.dom().contains(hash)) && (
        owner.dom().contains(hash) ==> claimed(owner, list, file)[hash] == owner[hash]),
    decreases list.len(),
{
    if list.len() > 0 {
        claimed_chunks_are_owned(owner, list.drop_last(), file, hash);
        assert forall|i: int| 0 <= i < list.len() - 1 implies list[i] == list.drop_last()[i] by {}
        if list.last().chunk_id.hash != hash {
            if exists|i: int| 0 <= i < list.len() && (#[trigger] list[i]).chunk_id.hash == hash {
                let i = choose|i: int|
                    0 <= i < list.len() && (#[trigger] list[i]).chunk_id.hash == hash;
                assert(list.drop_last()[i].chunk_id.hash == hash);
            }
        }
    }
}

/// Every chunk that was struck is owned by no file; the others are found where they were before.
pub proof fn released_chunks_are_free(
    owner: Map<[u8; 32], u128>,
    list: Seq<Loc>,
    hash: [u8; 32],
)
    ensures
        (exists|i: int| 0 <= i < list.len() && (#[trigger] list[i]).chunk_id.hash == hash)
            ==> !released(owner, list).dom().contains(hash),
        (forall|i: int| 0 <= i < list.len() ==> (#[trigger] list[i]).chunk_id.hash != hash) ==> (
        released(owner, list).dom().contains(hash) <==> owner.dom().contains(hash)) && (
        owner.dom().contains(hash) ==> released(owner, list)[hash] == owner[hash]),
    decreases list.len(),
{
    if list.len() > 0 {
        released_chunks_are_free(owner, list.drop_last(), hash);
        assert forall|i: int| 0 <= i < list.len() - 1 implies list[i] == list.drop_last()[i] by {}
        if list.last().chunk_id.hash != hash {
            if exists|i: int| 0 <= i < list.len() && (#[trigger] list[i]).chunk_id.hash == hash {
                let i = choose|i: int|
                    0 <= i < list.len() && (#[trigger] list[i]).chunk_id.hash == hash;
                assert(list.drop_last()[i].chunk_id.hash == hash);
            }
        }
    }
}

// ---------------------------------------------------------------------------
// A report on one location.
// ---------------------------------------------------------------------------

/// The first location of a list that names the chunk.
pub open spec fn first_naming(list: Seq<Loc>, chunk: ChunkId) -> Option<int>
    decreases list.len(),
{
    if list.len() == 0 {
        None
    } else {
        match first_naming(list.drop_last(), chunk) {
            Some(i) => Some(i),
            None => if list.last().chunk_id == chunk {
                Some(list.len() - 1)
            } else {
                None
            },
        }
    }
}

/// `first_naming` finds the first location that names the chunk, whenever there is one.
pub proof fn first_naming_is_first(list: Seq<Loc>, chunk: ChunkId)
    ensures
        match first_naming(list, chunk) {
            Some(i) => 0 <= i < list.len() && list[i].chunk_id == chunk && (forall|j: int|
                0 <= j < i ==> (#[trigger] list[j]).chunk_id != chunk),
            None => forall|j: int|
                0 <= j < list.len() ==> (#[trigger] list[j]).chunk_id != chunk,
        },
    decreases list.len(),
{
    if list.len() > 0 {
        first_naming_is_first(list.drop_last(), chunk);
        assert forall|j: int| 0 <= j < list.len() - 1 implies list[j] == list.drop_last()[j] by {}
        if first_naming(list.drop_last(), chunk) is None {
            assert forall|j: int| 0 <= j < list.len() - 1 implies (#[trigger] list[j]).chunk_id
                != chunk by {
                assert(list.drop_last()[j].chunk_id != chunk);
            }
        }
    }
}

fn find_chunk(list: &Vec<ChunkLocation>, chunk: ChunkId) -> (r: Option<usize>)
    ensures
        match r {
            Some(i) => first_naming(locs(list@), chunk) == Some(i as int) && i < list@.len(),
            None => first_naming(locs(list@), chunk) is None,
        },
{
    let mut i: usize = 0;
    while i < list.len()
        invariant
            i <= list@.len(),
            forall|j: int| 0 <= j < i ==> (#[trigger] locs(list@)[j]).chunk_id != chunk,
        decreases list@.len() - i,
    {
        assert(locs(list@)[i as int] == list@[i as int]@);
        if list[i].chunk_id == chunk {
            proof {
                first_naming_is_first(locs(list@), chunk);
            }
            return Some(i);
        }
        i += 1;
    }
    proof {
        first_naming_is_first(locs(list@), chunk);
    }
    None
}

/// The entry after a report with a known place was taken in at place `p`: it fills its slot, or
/// is weighed against the location that does.
pub open spec fn placed_at(list: Seq<Loc>, report: Loc, slot: u64, p: int) -> Seq<Loc> {
    if holds_at(list, slot, p) {
        if report_wins(list[p], report) {
            list.update(p, report)
        } else {
            list
        }
    } else {
        list.insert(p, report)
    }
}

/// The index after that report.
pub open spec fn owner_placed_at(
    owner: Map<[u8; 32], u128>,
    list: Seq<Loc>,
    report: Loc,
    slot: u64,
    p: int,
    file: u128,
) -> Map<[u8; 32], u128> {
    if holds_at(list, slot, p) {
        if report_wins(list[p], report) {
            owner.remove(list[p].chunk_id.hash).insert(report.chunk_id.hash, file)
        } else {
            owner
        }
    } else {
        owner.insert(report.chunk_id.hash, file)
    }
}

/// The entry after a report without a place: it replaces the first location of its chunk, or
/// joins the end.
pub open spec fn placed_by_name(list: Seq<Loc>, report: Loc) -> Seq<Loc> {
    match first_naming(list, report.chunk_id) {
        Some(i) => list.update(i, report),
        None => list.push(report),
    }
}

/// A report turns the entry `(before, owner_before)` into `(after, owner_after)`.
pub open spec fn report_taken(
    before: Seq<Loc>,
    owner_before: Map<[u8; 32], u128>,
    report: Loc,
    file: u128,
    after: Seq<Loc>,
    owner_after: Map<[u8; 32], u128>,
) -> bool {
    match report.slot() {
        Some(slot) => exists|p: int|
            #![trigger parts_at(before, slot, p)]
            parts_at(before, slot, p) && after == placed_at(before, report, slot, p) && owner_after
                == owner_placed_at(owner_before, before, report, slot, p, file),
        None => after == placed_by_name(before, report) && owner_after == owner_before.insert(
            report.chunk_id.hash,
            file,
        ),
    }
}

/// The entry of a file; a file without one starts empty, at the report's write sequence.
pub open spec fn entry_or_new(files: Map<u128, FileEntry>, file: u128, report: Loc) -> FileEntry {
    if files.dom().contains(file) {
        files[file]
    } else {
        (Seq::empty(), or_zero(report.client_write_seq))
    }
}

// ---------------------------------------------------------------------------
// A whole-file record.
// ---------------------------------------------------------------------------

/// What a record's location becomes when it meets the held list: the held location of its slot
/// where it is stale against that, itself otherwise.
pub open spec fn weighed(held: Seq<Loc>, incoming: Loc, on_disk: bool, after: Loc) -> bool {
    match incoming.slot() {
        Some(slot) => exists|p: int|
            #![trigger parts_at(held, slot, p)]
            parts_at(held, slot, p) && after == (if holds_at(held, slot, p) && record_is_stale(
                held[p],
                incoming,
                on_disk,
            ) {
                held[p]
            } else {
                incoming
            }),
        None => after == incoming,
    }
}

/// The locations that have a place in the file.
pub open spec fn with_place(list: Seq<Loc>) -> Seq<Loc>
    decreases list.len(),
{
    if list.len() == 0 {
        list
    } else if list.last().file_offset is Some {
        with_place(list.drop_last()).push(list.last())
    } else {
        with_place(list.drop_last())
    }
}

/// `middle` is the record's list after each location was weighed against the held entry.
pub open spec fn all_weighed(
    files: Map<u128, FileEntry>,
    file: u128,
    incoming: Seq<Loc>,
    on_disk: Seq<bool>,
    middle: Seq<Loc>,
) -> bool {
    if files.dom().contains(file) {
        middle.len() == incoming.len() && forall|i: int|
            0 <= i < incoming.len() ==> weighed(
                files[file].0,
                #[trigger] incoming[i],
                on_disk[i],
                middle[i],
            )
    } else {
        middle == incoming
    }
}

/// The chunk map after a whole-file record was taken in.
///
/// A record with locations replaces the entry: each of its locations gives way to the held one
/// of its slot where it is stale against that, and locations without a place are dropped. A
/// record without locations empties an existing entry when the file's size is zero, and is
/// ignored otherwise.
pub open spec fn record_taken(
    before: Chunks,
    rec: FileRec,
    on_disk: Seq<bool>,
    after: Chunks,
) -> bool {
    let file = rec.id.id;
    if rec.chunk_locations.len() > 0 {
        exists|middle: Seq<Loc>|
            #![trigger all_weighed(before.files, file, rec.chunk_locations, on_disk, middle)]
            all_weighed(before.files, file, rec.chunk_locations, on_disk, middle) && after.files
                == before.files.insert(file, (with_place(middle), rec.write_seq)) && after.owner
                == claimed(before.owner, with_place(middle), file)
    } else if rec.size == 0 && before.files.dom().contains(file) {
        after.files == before.files.insert(file, (Seq::empty(), rec.write_seq)) && after.owner
            == released(before.owner, before.files[file].0)
    } else {
        after == before
    }
}

// ---------------------------------------------------------------------------
// Rebuilding from stored records.
// ---------------------------------------------------------------------------

/// The held list with every location of `extra` added whose slot it does not fill yet; locations
/// without a place are always added.
pub open spec fn filled_up(held: Seq<Loc>, extra: Seq<Loc>) -> Seq<Loc>
    decreases extra.len(),
{
    if extra.len() == 0 {
        held
    } else {
        let sofar = filled_up(held, extra.drop_last());
        match extra.last().slot() {
            Some(slot) => if fills(sofar, slot) {
                sofar
            } else {
                sofar.push(extra.last())
            },
            None => sofar.push(extra.last()),
        }
    }
}

/// A file's entry after its stored record was merged in.
pub open spec fn rebuilt_entry(files: Map<u128, FileEntry>, rec: FileRec) -> FileEntry {
    let sorted = offset_sorted(rec.chunk_locations);
    if files.dom().contains(rec.id.id) {
        let held = files[rec.id.id];
        (
            offset_sorted(filled_up(held.0, sorted)),
            if held.1 >= rec.write_seq {
                held.1
            } else {
                rec.write_seq
            },
        )
    } else {
        (sorted, rec.write_seq)
    }
}

/// The place of the location that a patch of `old_chunk` moves on: in the given slot, or
/// anywhere if no slot is given.
pub open spec fn patched_place(list: Seq<Loc>, slot: Option<u64>, old_chunk: ChunkId) -> Option<int>
    decreases list.len(),
{
    if list.len() == 0 {
        None
    } else {
        match patched_place(list.drop_last(), slot, old_chunk) {
            Some(i) => Some(i),
            None => if list.last().chunk_id == old_chunk && (slot is None || list.last().slot()
                == slot) {
                Some(list.len() - 1)
            } else {
                None
            },
        }
    }
}

/// A location after a patch gave its content a new identity.
pub open spec fn moved_on(l: Loc, new_chunk: ChunkId, size: usize, written_at_ms: u64) -> Loc {
    Loc {
        chunk_id: new_chunk,
        checksum: new_chunk.hash,
        size: size,
        written_at: Some(written_at_ms),
        ..l
    }
}

/// The files' entries after a patch.
pub open spec fn files_patched(
    files: Map<u128, FileEntry>,
    file: u128,
    slot: Option<u64>,
    old_chunk: ChunkId,
    new_chunk: ChunkId,
    size: usize,
    written_at_ms: u64,
) -> Map<u128, FileEntry> {
    if new_chunk == old_chunk || !files.dom().contains(file) {
        files
    } else {
        let list = files[file].0;
        match patched_place(list, slot, old_chunk) {
            Some(i) => files.insert(
                file,
                (list.update(i, moved_on(list[i], new_chunk, size, written_at_ms)), files[file].1),
            ),
            None => files,
        }
    }
}

impl ChunkMap {
    pub fn new() -> (m: ChunkMap)
        ensures
            m@.files == Map::<u128, FileEntry>::empty(),
            m@.owner == Map::<[u8; 32], u128>::empty(),
    {
        ChunkMap { files: files_new(), owners: owners_new() }
    }

    /// A copy of a file's entry.
    pub fn entry(&self, file_id: FileId) -> (r: Option<(Vec<ChunkLocation>, u64)>)
        ensures
            match r {
                Some(e) => self@.files.dom().contains(file_id.id) && self@.files[file_id.id] == (
                    locs(e.0@),
                    e.1,
                ),
                None => !self@.files.dom().contains(file_id.id),
            },
    {
        files_get(&self.files, file_id.id)
    }

    /// Sets a file's entry, leaving the reverse index alone.
    pub fn set_entry(&mut self, file_id: FileId, list: Vec<ChunkLocation>, write_seq: u64)
        ensures
            final(self)@.files == old(self)@.files.insert(file_id.id, (locs(list@), write_seq)),
            final(self)@.owner == old(self)@.owner,
    {
        files_insert(&mut self.files, file_id.id, (list, write_seq));
    }

    /// The location that the map holds for a slot of a file.
    ///
    /// Exact for an entry that is ordered by slot.
    pub fn current(&self, file_id: FileId, chunk_idx: u64) -> (r: Option<ChunkLocation>)
        ensures
            !self@.files.dom().contains(file_id.id) ==> r is None,
            self@.files.dom().contains(file_id.id) ==> exists|p: int|
                #![trigger parts_at(self@.files[file_id.id].0, chunk_idx, p)]
                parts_at(self@.files[file_id.id].0, chunk_idx, p) && match r {
                    Some(l) => holds_at(self@.files[file_id.id].0, chunk_idx, p) && l@
                        == self@.files[file_id.id].0[p],
                    None => !holds_at(self@.files[file_id.id].0, chunk_idx, p),
                },
    {
        match files_get(&self.files, file_id.id) {
            Some(e) => match chunk_map_find_by_idx(&e.0, chunk_idx) {
                Some(p) => {
                    assert(locs(e.0@)[p as int] == e.0@[p as int]@);
                    assert(parts_at(self@.files[file_id.id].0, chunk_idx, p as int));
                    Some(e.0[p].clone())
                },
                None => {
                    assert(locs(e.0@) == self@.files[file_id.id].0);
                    None
                },
            },
            None => None,
        }
    }

    fn claim(&mut self, list: &Vec<ChunkLocation>, file: u128)
        ensures
            final(self)@.files == old(self)@.files,
            final(self)@.owner == claimed(old(self)@.owner, locs(list@), file),
    {
        let mut i: usize = 0;
        assert(locs(list@).take(0) =~= Seq::<Loc>::empty());
        while i < list.len()
            invariant
                i <= list@.len(),
                self@.files == old(self)@.files,
                self@.owner == claimed(old(self)@.owner, locs(list@).take(i as int), file),
            decreases list@.len() - i,
        {
            proof {
                assert(locs(list@).take(i + 1).drop_last() =~= locs(list@).take(i as int));
                assert(locs(list@).take(i + 1).last() == list@[i as int]@);
            }
            owners_insert(&mut self.owners, list[i].chunk_id.hash, file);
            i += 1;
        }
        assert(locs(list@).take(i as int) =~= locs(list@));
    }

    fn release(&mut self, list: &Vec<ChunkLocation>)
        ensures
            final(self)@.files == old(self)@.files,
            final(self)@.owner == released(old(self)@.owner, locs(list@)),
    {
        let mut i: usize = 0;
        assert(locs(list@).take(0) =~= Seq::<Loc>::empty());
        while i < list.len()
            invariant
                i <= list@.len(),
                self@.files == old(self)@.files,
                self@.owner == released(old(self)@.owner, locs(list@).take(i as int)),
            decreases list@.len() - i,
        {
            proof {
                assert(locs(list@).take(i + 1).drop_last() =~= locs(list@).take(i as int));
                assert(locs(list@).take(i + 1).last() == list@[i as int]@);
            }
            owners_remove(&mut self.owners, list[i].chunk_id.hash);
            i += 1;
        }
        assert(locs(list@).take(i as int) =~= locs(list@));
    }

    /// Takes a report on one location of a known file into the map.
    pub fn chunk_map_update_location_for_file(&mut self, file_id: FileId, location: &ChunkLocation)
        ensures
            reported_for_file(old(self)@, file_id.id, location@, final(self)@),
    {
        let ghost before = entry_or_new(self@.files, file_id.id, location@);
        let (mut list, seq): (Vec<ChunkLocation>, u64) = match files_get(&self.files, file_id.id) {
            Some(e) => e,
            None => (Vec::new(), or_zero_exec(location.client_write_seq)),
        };
        assert(locs(list@) =~= before.0);
        match location.slot() {
            Some(slot) => {
                let pos: usize = partition_by_slot(&list, slot);
                assert(pos < list@.len() ==> locs(list@)[pos as int] == list@[pos as int]@);
                if pos < list.len() && list[pos].slot_key() == slot {
                    if report_wins_exec(&list[pos], location) {
                        owners_remove(&mut self.owners, list[pos].chunk_id.hash);
                        list.set(pos, location.clone());
                        owners_insert(&mut self.owners, location.chunk_id.hash, file_id.id);
                        assert(locs(list@) =~= before.0.update(pos as int, location@));
                    }
                } else {
                    list.insert(pos, location.clone());
                    owners_insert(&mut self.owners, location.chunk_id.hash, file_id.id);
                    assert(locs(list@) =~= before.0.insert(pos as int, location@));
                }
                assert(parts_at(before.0, slot, pos as int));
            },
            None => {
                match find_chunk(&list, location.chunk_id) {
                    Some(i) => {
                        list.set(i, location.clone());
                        assert(locs(list@) =~= before.0.update(i as int, location@));
                    },
                    None => {
                        list.push(location.clone());
                        assert(locs(list@) =~= before.0.push(location@));
                    },
                }
                owners_insert(&mut self.owners, location.chunk_id.hash, file_id.id);
            },
        }
        files_insert(&mut self.files, file_id.id, (list, seq));
    }

    /// Takes a whole-file record into the map. `on_disk` tells, for each of the record's
    /// locations, whether this node has its chunk on disk.
    pub fn chunk_map_update(&mut self, metadata: &FileMetadata, on_disk: &Vec<bool>)
        requires
            on_disk@.len() == metadata.chunk_locations@.len(),
        ensures
            record_taken(old(self)@, metadata@, on_disk@, final(self)@),
    {
        let ghost rec = metadata@;
        let file: u128 = metadata.id.id;
        assert(rec.chunk_locations.len() == metadata.chunk_locations@.len());
        if metadata.chunk_locations.len() > 0 {
            let middle: Vec<ChunkLocation> = match files_get(&self.files, file) {
                Some(held) => weigh_all(&held.0, &metadata.chunk_locations, on_disk),
                None => clone_locs(&metadata.chunk_locations),
            };
            assert(all_weighed(self@.files, file, rec.chunk_locations, on_disk@, locs(middle@))) by {
                if self@.files.dom().contains(file) {
                    assert forall|i: int| 0 <= i < rec.chunk_locations.len() implies weighed(
                        self@.files[file].0,
                        #[trigger] rec.chunk_locations[i],
                        on_disk@[i],
                        locs(middle@)[i],
                    ) by {}
                }
            }
            let ghost mid = locs(middle@);
            let new_locs: Vec<ChunkLocation> = keep_placed(middle);
            self.claim(&new_locs, file);
            files_insert(&mut self.files, file, (new_locs, metadata.write_seq));
            assert(self@.files == old(self)@.files.insert(file, (with_place(mid), rec.write_seq)));
            assert(self@.owner == claimed(old(self)@.owner, with_place(mid), file));
            assert(all_weighed(old(self)@.files, rec.id.id, rec.chunk_locations, on_disk@, mid));
        } else if metadata.size == 0 {
            match files_get(&self.files, file) {
                Some(held) => {
                    self.release(&held.0);
                    let none: Vec<ChunkLocation> = Vec::new();
                    assert(locs(none@) =~= Seq::<Loc>::empty());
                    files_insert(&mut self.files, file, (none, metadata.write_seq));
                },
                None => {},
            }
        }
    }

    /// Replaces the first location that names the reported chunk, in some file that has one.
    /// Nothing changes if no file has one.
    pub fn chunk_map_update_location(&mut self, location: &ChunkLocation)
        ensures
            reported_for_any(old(self)@, location@, final(self)@),
    {
        let keys: Vec<u128> = files_keys(&self.files);
        let ghost files0 = self@.files;
        let mut k: usize = 0;
        while k < keys.len()
            invariant
                k <= keys@.len(),
                self@ == old(self)@,
                files0 == self@.files,
                keys@.to_set() == files0.dom(),
                forall|j: int|
                    0 <= j < k ==> first_naming(
                        files0[#[trigger] keys@[j]].0,
                        location@.chunk_id,
                    ) is None,
            decreases keys@.len() - k,
        {
            let file: u128 = keys[k];
            assert(keys@.to_set().contains(keys@[k as int]));
            match files_get(&self.files, file) {
                Some(e) => {
                    let (mut list, seq): (Vec<ChunkLocation>, u64) = e;
                    match find_chunk(&list, location.chunk_id) {
                        Some(i) => {
                            let ghost before = locs(list@);
                            list.set(i, location.clone());
                            assert(locs(list@) =~= before.update(i as int, location@));
                            files_insert(&mut self.files, file, (list, seq));
                            owners_insert(&mut self.owners, location.chunk_id.hash, file);
                            assert(updated_in(old(self)@, location@, self@, file));
                            assert(named_by_some(old(self)@.files, location@.chunk_id));
                            return;
                        },
                        None => {},
                    }
                },
                None => {},
            }
            k += 1;
        }
        proof {
            assert forall|f: u128| files0.dom().contains(f) implies first_naming(
                (#[trigger] files0[f]).0,
                location@.chunk_id,
            ) is None by {
                assert(keys@.to_set().contains(f));
                let j = choose|j: int| 0 <= j < keys@.len() && keys@[j] == f;
                assert(first_naming(files0[keys@[j]].0, location@.chunk_id) is None);
            }
        }
    }

    /// Drops a file's entry and strikes its chunks from the reverse index.
    pub fn chunk_map_remove(&mut self, file_id: &FileId)
        ensures
            final(self)@.files == old(self)@.files.remove(file_id.id),
            final(self)@.owner == (if old(self)@.files.dom().contains(file_id.id) {
                released(old(self)@.owner, old(self)@.files[file_id.id].0)
            } else {
                old(self)@.owner
            }),
    {
        match files_remove(&mut self.files, file_id.id) {
            Some(e) => self.release(&e.0),
            None => {},
        }
    }

    /// The file that a chunk was last recorded for.
    pub fn find_file_by_chunk(&self, chunk_id: &ChunkId) -> (r: Option<FileId>)
        ensures
            r == (if self@.owner.dom().contains(chunk_id.hash) {
                Some(FileId { id: self@.owner[chunk_id.hash] })
            } else {
                None
            }),
    {
        match owners_get(&self.owners, chunk_id.hash) {
            Some(id) => Some(FileId { id }),
            None => None,
        }
    }

    /// Points a file's slot at the identity that a patch gave its content.
    pub fn update_chunk_map_after_patch(
        &mut self,
        file_id: FileId,
        chunk_idx: Option<u64>,
        old_chunk_id: ChunkId,
        new_chunk_id: ChunkId,
        size: usize,
        written_at_ms: u64,
    )
        ensures
            final(self)@.files == files_patched(
                old(self)@.files,
                file_id.id,
                chunk_idx,
                old_chunk_id,
                new_chunk_id,
                size,
                written_at_ms,
            ),
            final(self)@.owner == old(self)@.owner,
    {
        if new_chunk_id == old_chunk_id {
            return;
        }
        match files_get(&self.files, file_id.id) {
            Some(e) => {
                let (mut list, seq): (Vec<ChunkLocation>, u64) = e;
                let ghost before = locs(list@);
                let n: usize = list.len();
                let mut i: usize = 0;
                assert(before.take(n as int) =~= before);
                while i < n
                    invariant
                        i <= n,
                        n == list@.len(),
                        locs(list@) == before,
                        before.len() == n,
                        patched_place(before.take(i as int), chunk_idx, old_chunk_id) is None,
                        before.take(n as int) == before,
                    ensures
                        i <= n,
                        i < n ==> patched_place(before, chunk_idx, old_chunk_id) == Some(i as int),
                        i == n ==> patched_place(before, chunk_idx, old_chunk_id) is None,
                    decreases n - i,
                {
                    proof {
                        assert(before.take(i + 1).drop_last() =~= before.take(i as int));
                        assert(before.take(i + 1).last() == list@[i as int]@);
                    }
                    let here: bool = match chunk_idx {
                        Some(c) => list[i].slot() == Some(c),
                        None => true,
                    };
                    if here && list[i].chunk_id == old_chunk_id {
                        proof {
                            lemma_patched_place_prefix(before, i + 1, chunk_idx, old_chunk_id);
                        }
                        break;
                    }
                    i += 1;
                }
                if i < n {
                    let ghost l = before[i as int];
                    let mut loc: ChunkLocation = list[i].clone();
                    loc.chunk_id = new_chunk_id;
                    loc.checksum = new_chunk_id.hash;
                    loc.size = size;
                    loc.written_at = Some(written_at_ms);
                    assert(loc@ == moved_on(l, new_chunk_id, size, written_at_ms));
                    list.set(i, loc);
                    assert(locs(list@) =~= before.update(
                        i as int,
                        moved_on(l, new_chunk_id, size, written_at_ms),
                    ));
                    files_insert(&mut self.files, file_id.id, (list, seq));
                }
            },
            None => {},
        }
    }

    /// Merges a file's stored record into the map, as when the map is built up at startup. What
    /// the map already holds for a slot is kept; a record without locations is passed over.
    pub fn rebuild_from_record(&mut self, file: &FileMetadata)
        ensures
            file@.chunk_locations.len() == 0 ==> final(self)@ == old(self)@,
            file@.chunk_locations.len() > 0 ==> {
                let entry = rebuilt_entry(old(self)@.files, file@);
                &&& final(self)@.files == old(self)@.files.insert(file@.id.id, entry)
                &&& final(self)@.owner == claimed(old(self)@.owner, entry.0, file@.id.id)
            },
    {
        if file.chunk_locations.len() == 0 {
            return;
        }
        let sorted: Vec<ChunkLocation> = sort_by_offset(clone_locs(&file.chunk_locations));
        let (list, seq): (Vec<ChunkLocation>, u64) = match files_get(&self.files, file.id.id) {
            Some(held) => {
                let (held_list, held_seq): (Vec<ChunkLocation>, u64) = held;
                let all: Vec<ChunkLocation> = fill_up(held_list, &sorted);
                let seq: u64 = if held_seq >= file.write_seq {
                    held_seq
                } else {
                    file.write_seq
                };
                (sort_by_offset(all), seq)
            },
            None => (sorted, file.write_seq),
        };
        self.claim(&list, file.id.id);
        files_insert(&mut self.files, file.id.id, (list, seq));
    }

    /// Whether some file's entry names the chunk.
    pub fn names_chunk(&self, chunk: ChunkId) -> (r: bool)
        ensures
            r == named_by_some(self@.files, chunk),
    {
        let keys: Vec<u128> = files_keys(&self.files);
        let ghost files0 = self@.files;
        let mut k: usize = 0;
        while k < keys.len()
            invariant
                k <= keys@.len(),
                files0 == self@.files,
                keys@.to_set() == files0.dom(),
                forall|j: int|
                    0 <= j < k ==> first_naming(files0[#[trigger] keys@[j]].0, chunk) is None,
            decreases keys@.len() - k,
        {
            let file: u128 = keys[k];
            assert(keys@.to_set().contains(keys@[k as int]));
            match files_get(&self.files, file) {
                Some(e) => {
                    if find_chunk(&e.0, chunk).is_some() {
                        assert(files0.dom().contains(file) && first_naming(
                            files0[file].0,
                            chunk,
                        ) is Some);
                        return true;
                    }
                },
                None => {},
            }
            k += 1;
        }
        proof {
            assert forall|f: u128| files0.dom().contains(f) implies first_naming(
                (#[trigger] files0[f]).0,
                chunk,
            ) is None by {
                assert(keys@.to_set().contains(f));
                let j = choose|j: int| 0 <= j < keys@.len() && keys@[j] == f;
                assert(first_naming(files0[keys@[j]].0, chunk) is None);
            }
        }
        false
    }
}

/// The chunk map after a report on one location of a known file. A file without an entry gets
/// one.
pub open spec fn reported_for_file(before: Chunks, file: u128, report: Loc, after: Chunks) -> bool {
    let entry = entry_or_new(before.files, file, report);
    &&& after.files.dom().contains(file)
    &&& after.files == before.files.insert(file, (after.files[file].0, entry.1))
    &&& report_taken(
        entry.0,
        before.owner,
        report,
        file,
        after.files[file].0,
        after.owner,
    )
}

/// The chunk map after a report on one location of an unknown file: the first location that
/// names the chunk was replaced in some entry that has one; without one nothing changed.
pub open spec fn reported_for_any(before: Chunks, report: Loc, after: Chunks) -> bool {
    if named_by_some(before.files, report.chunk_id) {
        exists|f: u128| #[trigger] updated_in(before, report, after, f)
    } else {
        after == before
    }
}

/// Some file's entry names the chunk.
pub open spec fn named_by_some(files: Map<u128, FileEntry>, chunk: ChunkId) -> bool {
    exists|f: u128|
        files.dom().contains(f) && first_naming((#[trigger] files[f]).0, chunk) is Some
}

/// Of all entries only that of `file` changed: the first location in it that names the reported
/// chunk was replaced, and the chunk is recorded as the file's.
pub open spec fn updated_in(before: Chunks, report: Loc, after: Chunks, file: u128) -> bool {
    &&& before.files.dom().contains(file)
    &&& first_naming(before.files[file].0, report.chunk_id) is Some
    &&& after.files == before.files.insert(
        file,
        (
            before.files[file].0.update(
                first_naming(before.files[file].0, report.chunk_id)->0,
                report,
            ),
            before.files[file].1,
        ),
    )
    &&& after.owner == before.owner.insert(report.chunk_id.hash, file)
}

proof fn lemma_patched_place_prefix(list: Seq<Loc>, n: int, slot: Option<u64>, old_chunk: ChunkId)
    requires
        0 <= n <= list.len(),
        patched_place(list.take(n), slot, old_chunk) is Some,
    ensures
        patched_place(list, slot, old_chunk) == patched_place(list.take(n), slot, old_chunk),
    decreases list.len() - n,
{
    if n == list.len() {
        assert(list.take(n) =~= list);
    } else {
        assert(list.take(n + 1).drop_last() =~= list.take(n));
        lemma_patched_place_prefix(list, n + 1, slot, old_chunk);
    }
}

fn weigh_all(
    held: &Vec<ChunkLocation>,
    incoming: &Vec<ChunkLocation>,
    on_disk: &Vec<bool>,
) -> (r: Vec<ChunkLocation>)
    requires
        on_disk@.len() == incoming@.len(),
    ensures
        r@.len() == incoming@.len(),
        forall|i: int|
            0 <= i < incoming@.len() ==> weighed(
                locs(held@),
                locs(incoming@)[i],
                on_disk@[i],
                #[trigger] locs(r@)[i],
            ),
{
    let mut out: Vec<ChunkLocation> = Vec::new();
    let mut i: usize = 0;
    while i < incoming.len()
        invariant
            i <= incoming@.len(),
            out@.len() == i,
            on_disk@.len() == incoming@.len(),
            forall|j: int|
                0 <= j < i ==> weighed(
                    locs(held@),
                    locs(incoming@)[j],
                    on_disk@[j],
                    #[trigger] locs(out@)[j],
                ),
        decreases incoming@.len() - i,
    {
        let loc: &ChunkLocation = &incoming[i];
        let ghost before = locs(out@);
        let chosen: ChunkLocation = match loc.slot() {
            Some(slot) => match chunk_map_find_by_idx(held, slot) {
                Some(p) => {
                    assert(locs(held@)[p as int] == held@[p as int]@);
                    if record_is_stale_exec(&held[p], loc, on_disk[i]) {
                        held[p].clone()
                    } else {
                        loc.clone()
                    }
                },
                None => loc.clone(),
            },
            None => loc.clone(),
        };
        assert(weighed(locs(held@), loc@, on_disk@[i as int], chosen@));
        let ghost cv = chosen@;
        out.push(chosen);
        assert(locs(out@) =~= before.push(cv));
        i += 1;
    }
    out
}

/// Drops the locations that have no place in the file.
pub fn keep_placed(list: Vec<ChunkLocation>) -> (r: Vec<ChunkLocation>)
    ensures
        locs(r@) == with_place(locs(list@)),
{
    let mut out: Vec<ChunkLocation> = Vec::new();
    let mut i: usize = 0;
    assert(locs(list@).take(0) =~= Seq::<Loc>::empty());
    assert(locs(out@) =~= Seq::<Loc>::empty());
    while i < list.len()
        invariant
            i <= list@.len(),
            locs(out@) == with_place(locs(list@).take(i as int)),
        decreases list@.len() - i,
    {
        let ghost before = locs(out@);
        proof {
            assert(locs(list@).take(i + 1).drop_last() =~= locs(list@).take(i as int));
            assert(locs(list@).take(i + 1).last() == list@[i as int]@);
        }
        if list[i].file_offset.is_some() {
            out.push(list[i].clone());
            assert(locs(out@) =~= before.push(list@[i as int]@));
        }
        i += 1;
    }
    assert(locs(list@).take(i as int) =~= locs(list@));
    out
}

fn has_slot(list: &Vec<ChunkLocation>, slot: u64) -> (r: bool)
    ensures
        r == fills(locs(list@), slot),
{
    let mut i: usize = 0;
    while i < list.len()
        invariant
            i <= list@.len(),
            forall|j: int| 0 <= j < i ==> (#[trigger] locs(list@)[j]).slot() != Some(slot),
        decreases list@.len() - i,
    {
        assert(locs(list@)[i as int] == list@[i as int]@);
        if list[i].slot() == Some(slot) {
            return true;
        }
        i += 1;
    }
    false
}

/// Adds to `held` every location of `extra` whose slot is not filled yet.
pub fn fill_up(held: Vec<ChunkLocation>, extra: &Vec<ChunkLocation>) -> (r: Vec<ChunkLocation>)
    ensures
        locs(r@) == filled_up(locs(held@), locs(extra@)),
{
    let mut out: Vec<ChunkLocation> = held;
    let ghost h = locs(out@);
    let mut i: usize = 0;
    assert(locs(extra@).take(0) =~= Seq::<Loc>::empty());
    while i < extra.len()
        invariant
            i <= extra@.len(),
            locs(out@) == filled_up(h, locs(extra@).take(i as int)),
        decreases extra@.len() - i,
    {
        let ghost before = locs(out@);
        proof {
            assert(locs(extra@).take(i + 1).drop_last() =~= locs(extra@).take(i as int));
            assert(locs(extra@).take(i + 1).last() == extra@[i as int]@);
        }
        let missing: bool = match extra[i].slot() {
            Some(slot) => !has_slot(&out, slot),
            None => true,
        };
        if missing {
            out.push(extra[i].clone());
            assert(locs(out@) =~= before.push(extra@[i as int]@));
        }
        i += 1;
    }
    assert(locs(extra@).take(i as int) =~= locs(extra@));
    out
}

} // verus!
