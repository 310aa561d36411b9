//! What holds of a node's state from one request to the next.
use crate::chunk_map::{all_weighed, record_taken, weighed, with_place, Chunks};
use crate::loc_list::{fills, holds_at, parts_at};
use crate::loops::since;
use crate::metadata::{
    alive, current_record, put_never_loses_a_slot, with_place_fills, TOMBSTONE_TTL_MS,
};
use crate::server::{
    buried_flags, deleted, put_taken, replica_taken, replicas_taken, PutFacts, ServerState, Taken,
};
use crate::types::{ChunkId, FileId, FileRec, Loc};
use vstd::prelude::*;

verus! {

// ---------------------------------------------------------------------------
// Deleted files stay deleted.
// ---------------------------------------------------------------------------

/// The file was deleted at a time, and nothing of it is left: neither its chunks nor a record to
/// push.
pub open spec fn gone(s: ServerState, file: FileId, at_ms: u64) -> bool {
    &&& s.tombstones.dom().contains(file.id)
    &&& s.tombstones[file.id] == at_ms
    &&& s.held(file) is None
    &&& !s.dirty.dom().contains(file.id)
}

/// Deleting a file leaves nothing of it.
pub proof fn deleting_leaves_nothing(
    before: ServerState,
    file: FileId,
    now_ms: u64,
    after: ServerState,
)
    requires
        deleted(before, file, now_ms, after),
    ensures
        gone(after, file, now_ms),
{
}

proof fn record_touches_only_its_file(
    before: Chunks,
    rec: FileRec,
    on_disk: Seq<bool>,
    after: Chunks,
    file: u128,
)
    requires
        record_taken(before, rec, on_disk, after),
        file != rec.id.id,
    ensures
        after.files.dom().contains(file) == before.files.dom().contains(file),
        before.files.dom().contains(file) ==> after.files[file] == before.files[file],
{
}

/// No put brings a file back that was deleted just now, whichever file it is of.
pub proof fn a_put_brings_nothing_back(
    before: ServerState,
    rec: FileRec,
    covers_from: u64,
    facts: PutFacts,
    taken: Taken,
    after: ServerState,
    file: FileId,
    at_ms: u64,
)
    requires
        gone(before, file, at_ms),
        since(at_ms, facts.now_ms) < TOMBSTONE_TTL_MS,
        !before.just_deleted(rec.id, facts.now_ms),
        put_taken(before, rec, covers_from, facts, taken, after),
    ensures
        gone(after, file, at_ms),
{
    assert(rec.id.id != file.id);
    record_touches_only_its_file(
        before.chunks,
        taken.metadata@,
        crate::server::present_flags(taken.metadata@.chunk_locations, facts.present@),
        after.chunks,
        file.id,
    );
}

/// No replicated record brings a file back that was deleted just now.
pub proof fn a_replica_brings_nothing_back(
    before: ServerState,
    rec: FileRec,
    present: Seq<ChunkId>,
    now_ms: u64,
    out: FileRec,
    after: ServerState,
    file: FileId,
    at_ms: u64,
)
    requires
        gone(before, file, at_ms),
        since(at_ms, now_ms) < TOMBSTONE_TTL_MS,
        !before.just_deleted(rec.id, now_ms),
        replica_taken(before, rec, present, out, after),
    ensures
        gone(after, file, at_ms),
{
    assert(rec.id.id != file.id);
    record_touches_only_its_file(
        before.chunks,
        out,
        crate::server::present_flags(out.chunk_locations, present),
        after.chunks,
        file.id,
    );
}

/// No batch of replicated records brings a file back that was deleted just now.
pub proof fn a_batch_brings_nothing_back(
    before: ServerState,
    items: Seq<FileRec>,
    present: Seq<ChunkId>,
    now_ms: u64,
    out: Seq<FileRec>,
    after: ServerState,
    file: FileId,
    at_ms: u64,
)
    requires
        gone(before, file, at_ms),
        since(at_ms, now_ms) < TOMBSTONE_TTL_MS,
        replicas_taken(before, items, present, now_ms, out, after),
    ensures
        gone(after, file, at_ms),
        after.tombstones == before.tombstones,
    decreases items.len(),
{
    if items.len() > 0 {
        if before.just_deleted(items.last().id, now_ms) {
            a_batch_brings_nothing_back(
                before,
                items.drop_last(),
                present,
                now_ms,
                out,
                after,
                file,
                at_ms,
            );
        } else {
            let mid = choose|mid: ServerState|
                #![trigger replica_taken(mid, items.last(), present, out.last(), after)]
                replicas_taken(before, items.drop_last(), present, now_ms, out.drop_last(), mid)
                    && replica_taken(mid, items.last(), present, out.last(), after);
            a_batch_brings_nothing_back(
                before,
                items.drop_last(),
                present,
                now_ms,
                out.drop_last(),
                mid,
                file,
                at_ms,
            );
            a_replica_brings_nothing_back(
                mid,
                items.last(),
                present,
                now_ms,
                out.last(),
                after,
                file,
                at_ms,
            );
        }
    }
}

/// Nothing of a file with a tombstone gets into what is stored, neither from a disseminated batch
/// nor from what the worker took in.
pub proof fn nothing_buried_is_stored(s: ServerState, items: Seq<FileRec>, file: FileId)
    requires
        s.buried(file),
    ensures
        forall|i: int|
            0 <= i < alive(items, buried_flags(s, items)).len() ==> (#[trigger] alive(
                items,
                buried_flags(s, items),
            )[i]).id != file,
    decreases items.len(),
{
    if items.len() > 0 {
        let init = items.drop_last();
        assert(buried_flags(s, items).drop_last() =~= buried_flags(s, init));
        assert(buried_flags(s, items).last() == s.buried(items.last().id));
        nothing_buried_is_stored(s, init, file);
        let a0 = alive(init, buried_flags(s, init));
        let a = alive(items, buried_flags(s, items));
        assert forall|i: int| 0 <= i < a.len() implies (#[trigger] a[i]).id != file by {
            if i < a0.len() {
                assert(a[i] == a0[i]);
            }
        }
    }
}

// ---------------------------------------------------------------------------
// Write sequences.
// ---------------------------------------------------------------------------

/// Write sequences never go back: whatever is put, what is known of a file does not fall below
/// what was known of it, and the put one counts.
pub proof fn puts_never_lower_a_write_seq(
    before: ServerState,
    rec: FileRec,
    covers_from: u64,
    facts: PutFacts,
    taken: Taken,
    after: ServerState,
    file: FileId,
)
    requires
        put_taken(before, rec, covers_from, facts, taken, after),
    ensures
        after.write_seq_of(file) >= before.write_seq_of(file),
        after.write_seq_of(rec.id) >= rec.write_seq,
{
}

/// Write sequences never go back, whatever is replicated.
pub proof fn replicas_never_lower_a_write_seq(
    before: ServerState,
    rec: FileRec,
    present: Seq<ChunkId>,
    out: FileRec,
    after: ServerState,
    file: FileId,
)
    requires
        replica_taken(before, rec, present, out, after),
    ensures
        after.write_seq_of(file) >= before.write_seq_of(file),
        after.write_seq_of(rec.id) >= rec.write_seq,
{
}

// ---------------------------------------------------------------------------
// What was put is read back.
// ---------------------------------------------------------------------------

proof fn weighing_keeps_slots(
    before: Chunks,
    file: u128,
    incoming: Seq<Loc>,
    on_disk: Seq<bool>,
    middle: Seq<Loc>,
    slot: u64,
)
    requires
        all_weighed(before.files, file, incoming, on_disk, middle),
        fills(incoming, slot),
    ensures
        fills(with_place(middle), slot),
{
    let i = choose|i: int| 0 <= i < incoming.len() && (#[trigger] incoming[i]).slot() == Some(slot);
    if before.files.dom().contains(file) {
        let held = before.files[file].0;
        assert(weighed(held, incoming[i], on_disk[i], middle[i]));
        let p = choose|p: int|
            #![trigger parts_at(held, slot, p)]
            parts_at(held, slot, p) && middle[i] == (if holds_at(held, slot, p)
                && crate::chunk_map::record_is_stale(held[p], incoming[i], on_disk[i]) {
                held[p]
            } else {
                incoming[i]
            });
        assert(slot < u64::MAX);
        assert(middle[i].slot() == Some(slot));
    }
    assert(middle[i].slot() == Some(slot));
    assert(fills(middle, slot));
    with_place_fills(middle, slot);
}

/// A put loses no slot of the chunk map: unless it has no locations at all, every slot that the
/// map or the put record filled is filled afterwards.
pub proof fn a_put_keeps_every_slot(
    before: ServerState,
    rec: FileRec,
    covers_from: u64,
    facts: PutFacts,
    taken: Taken,
    after: ServerState,
    slot: u64,
)
    requires
        put_taken(before, rec, covers_from, facts, taken, after),
        rec.chunk_locations.len() > 0,
        fills(rec.chunk_locations, slot) || (before.held(rec.id) is Some && fills(
            before.held(rec.id)->0,
            slot,
        )),
    ensures
        after.held(rec.id) is Some,
        fills(after.held(rec.id)->0, slot),
{
    let path = match facts.known_path {
        Some(p) => Some(p@),
        None => None,
    };
    let out = taken.metadata@;
    let flags = crate::server::present_flags(out.chunk_locations, facts.present@);
    match before.held(rec.id) {
        Some(h) => {
            put_never_loses_a_slot(rec, path, h, slot);
        },
        None => {},
    }
    assert(fills(out.chunk_locations, slot));
    assert(out.chunk_locations.len() > 0);
    let middle = choose|middle: Seq<Loc>|
        #![trigger all_weighed(before.chunks.files, rec.id.id, out.chunk_locations, flags, middle)]
        all_weighed(before.chunks.files, rec.id.id, out.chunk_locations, flags, middle)
            && after.chunks.files == before.chunks.files.insert(
            rec.id.id,
            (with_place(middle), out.write_seq),
        ) && after.chunks.owner == crate::chunk_map::claimed(
            before.chunks.owner,
            with_place(middle),
            rec.id.id,
        );
    weighing_keeps_slots(before.chunks, rec.id.id, out.chunk_locations, flags, middle, slot);
}

/// A put that was acknowledged is read back at once, even before it is stored: whatever record of
/// the file the store still has, the answer has at least the put write sequence and fills every
/// slot that was put; and if the map held nothing of the file before, the locations are just
/// those that were put.
pub proof fn an_acknowledged_put_is_read_back(
    before: ServerState,
    rec: FileRec,
    covers_from: u64,
    facts: PutFacts,
    taken: Taken,
    after: ServerState,
    stored: FileRec,
    slot: u64,
)
    requires
        put_taken(before, rec, covers_from, facts, taken, after),
        fills(rec.chunk_locations, slot),
    ensures
        ({
            let answer = current_record(stored, Some(after.chunks.files[rec.id.id]));
            &&& answer.write_seq >= rec.write_seq
            &&& fills(answer.chunk_locations, slot)
            &&& before.held(rec.id) is None ==> answer.chunk_locations == with_place(
                rec.chunk_locations,
            )
        }),
{
    assert(rec.chunk_locations.len() > 0);
    a_put_keeps_every_slot(before, rec, covers_from, facts, taken, after, slot);
    let e = after.chunks.files[rec.id.id];
    assert(e.0.len() > 0);
    let out = taken.metadata@;
    let flags = crate::server::present_flags(out.chunk_locations, facts.present@);
    if before.held(rec.id) is None {
        assert(out.chunk_locations == rec.chunk_locations);
    } else {
        let h = before.held(rec.id)->0;
        put_never_loses_a_slot(
            rec,
            match facts.known_path {
                Some(p) => Some(p@),
                None => None,
            },
            h,
            slot,
        );
    }
    assert(out.chunk_locations.len() > 0);
    let middle = choose|middle: Seq<Loc>|
        #![trigger all_weighed(before.chunks.files, rec.id.id, out.chunk_locations, flags, middle)]
        all_weighed(before.chunks.files, rec.id.id, out.chunk_locations, flags, middle)
            && after.chunks.files == before.chunks.files.insert(
            rec.id.id,
            (with_place(middle), out.write_seq),
        ) && after.chunks.owner == crate::chunk_map::claimed(
            before.chunks.owner,
            with_place(middle),
            rec.id.id,
        );
    assert(e == (with_place(middle), rec.write_seq));
}

} // verus!
