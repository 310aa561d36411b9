//! What each operation changes of a node's state, and what it leaves alone.
use vstd::prelude::*;

use crate::chunk_map::{record_taken, released_chunks_are_free, Chunks};
use crate::loops::{not_of, to_push, DirtySpec};
use crate::metadata::{alive, disseminated, put_reconciled, replicated};
use crate::record_laws::a_batch_leaves_out_the_buried;
use crate::server::{
    admitted, buried_flags, deleted, dressed, locations_taken, present_flags, put_goes_in,
    put_taken, put_waits, recent_after, records_taken, replica_taken, replicas_taken, PutFacts,
    ServerState, Taken,
};
use crate::types::{ChunkId, FileId, FileRec, Loc};

verus! {

/// A put is taken into the chunk map, and told around, as it was reconciled with the known path
/// and with what the map holds of its own file. It notes its write sequence just where that is higher than the one known of the file, and
/// says which sequences between the two nothing accounts for. It forgets the file's tombstone. A
/// record with a write sequence or a location waits to be stored and to be pushed to the
/// followers; one with neither is stored at once. Nothing that is known of other files changes,
/// and of what does not go by files nothing does.
pub proof fn a_put_changes_its_own_file(
    before: ServerState,
    rec: FileRec,
    covers_from: u64,
    facts: PutFacts,
    taken: Taken,
    after: ServerState,
    f: u128,
)
    requires
        put_taken(before, rec, covers_from, facts, taken, after),
    ensures
        ({
            let id = rec.id.id;
            let known = if before.write_seqs.dom().contains(id) {
                before.write_seqs[id]
            } else {
                0
            };
            let out = taken.metadata@;
            &&& rec.write_seq > known ==> after.write_seqs == before.write_seqs.insert(
                id,
                rec.write_seq,
            )
            &&& rec.write_seq <= known ==> after.write_seqs == before.write_seqs
            &&& rec.write_seq > 0 && covers_from > known + 1 ==> taken.missing == Some(
                ((known + 1) as u64, (covers_from - 1) as u64),
            )
            &&& rec.write_seq == 0 || covers_from <= known + 1 ==> taken.missing is None
            &&& out == put_reconciled(
                rec,
                if facts.known_path is Some {
                    Some((facts.known_path->0)@)
                } else {
                    None
                },
                if before.chunks.files.dom().contains(id) {
                    Some(before.chunks.files[id].0)
                } else {
                    None
                },
            )
            &&& record_taken(
                before.chunks,
                out,
                present_flags(out.chunk_locations, facts.present@),
                after.chunks,
            )
            &&& after.recent == recent_after(before.recent, out, facts.now_ms)
            &&& out.id == rec.id
            &&& taken.commit_now <==> out.write_seq == 0 && out.chunk_locations.len() == 0
            &&& !taken.commit_now ==> after.dirty == before.dirty.insert(id, out)
                && after.pending_writes == before.pending_writes.insert(id)
            &&& taken.commit_now ==> after.dirty == before.dirty && after.pending_writes
                == before.pending_writes
            &&& after.tombstones == before.tombstones.remove(id)
            &&& f != id ==> (after.chunks.files.dom().contains(f)
                <==> before.chunks.files.dom().contains(f)) && (before.chunks.files.dom().contains(
                f,
            ) ==> after.chunks.files[f] == before.chunks.files[f])
            &&& after.forwards == before.forwards
            &&& after.rf == before.rf
            &&& after.chunk_tombstones == before.chunk_tombstones
            &&& after.pending_renames == before.pending_renames
            &&& after.patches == before.patches
            &&& after.last_write_ms == before.last_write_ms
        }),
{
}

/// The write that comes last is told around last, in place of every earlier one to its file. The
/// others stay in their order; but of more than five hundred and twelve the oldest goes.
pub proof fn the_last_write_to_a_file_is_remembered(
    recent: Seq<(FileRec, u64)>,
    rec: FileRec,
    now_ms: u64,
)
    ensures
        ({
            let others = recent.filter(|e: (FileRec, u64)| e.0.id != rec.id);
            &&& others.len() < 512 ==> recent_after(recent, rec, now_ms) == others.push(
                (rec, now_ms),
            )
            &&& others.len() >= 512 ==> recent_after(recent, rec, now_ms) == others.push(
                (rec, now_ms),
            ).drop_first()
        }),
{
    not_of_is_the_others(recent, rec.id);
}

/// Taking a file's entries out leaves just those of other files, in order.
pub proof fn not_of_is_the_others(entries: Seq<(FileRec, u64)>, file: FileId)
    ensures
        not_of(entries, file) == entries.filter(|e: (FileRec, u64)| e.0.id != file),
    decreases entries.len(),
{
    reveal(Seq::filter);
    if entries.len() > 0 {
        not_of_is_the_others(entries.drop_last(), file);
    }
}

/// A replicated record is weighed as one of a newer session just where its write sequence is
/// higher than the one known of the file, and that is then noted. It changes the chunk map for
/// its own file, and nothing else.
pub proof fn a_replica_changes_its_own_file(
    before: ServerState,
    rec: FileRec,
    present: Seq<ChunkId>,
    out: FileRec,
    after: ServerState,
    f: u128,
)
    requires
        replica_taken(before, rec, present, out, after),
    ensures
        ({
            let id = rec.id.id;
            let known = if before.write_seqs.dom().contains(id) {
                before.write_seqs[id]
            } else {
                0
            };
            let held = if before.chunks.files.dom().contains(id) {
                Some(before.chunks.files[id].0)
            } else {
                None
            };
            &&& out == replicated(rec, held, rec.write_seq > known)
            &&& record_taken(
                before.chunks,
                out,
                present_flags(out.chunk_locations, present),
                after.chunks,
            )
            &&& rec.write_seq > known ==> after.write_seqs == before.write_seqs.insert(
                id,
                rec.write_seq,
            )
            &&& rec.write_seq <= known ==> after.write_seqs == before.write_seqs
            &&& f != id ==> (after.chunks.files.dom().contains(f)
                <==> before.chunks.files.dom().contains(f)) && (before.chunks.files.dom().contains(
                f,
            ) ==> after.chunks.files[f] == before.chunks.files[f])
            &&& after == (ServerState {
                chunks: after.chunks,
                write_seqs: after.write_seqs,
                ..before
            })
        }),
{
}

/// A chunk counts as on disk just where it is among those present.
pub proof fn chunks_present_are_flagged(list: Seq<Loc>, present: Seq<ChunkId>, i: int)
    requires
        0 <= i < list.len(),
    ensures
        present_flags(list, present).len() == list.len(),
        present_flags(list, present)[i] <==> present.contains(list[i].chunk_id),
{
}

/// Of a replicated batch every record is taken in, in order, but those of files deleted less than
/// thirty seconds ago.
pub proof fn a_batch_passes_over_deleted_files(
    before: ServerState,
    items: Seq<FileRec>,
    present: Seq<ChunkId>,
    now_ms: u64,
    out: Seq<FileRec>,
    after: ServerState,
)
    requires
        replicas_taken(before, items, present, now_ms, out, after),
    ensures
        out.map_values(|r: FileRec| r.id) == items.filter(
            |r: FileRec|
                !(before.tombstones.dom().contains(r.id.id) && now_ms
                    - before.tombstones[r.id.id] < 30000),
        ).map_values(|r: FileRec| r.id),
    decreases items.len(),
{
    reveal(Seq::filter);
    let stays = |r: FileRec|
        !(before.tombstones.dom().contains(r.id.id) && now_ms - before.tombstones[r.id.id]
            < 30000);
    let id = |r: FileRec| r.id;
    if items.len() == 0 {
        assert(out.map_values(id) =~= items.filter(stays).map_values(id));
    } else {
        let init = items.drop_last();
        if before.just_deleted(items.last().id, now_ms) {
            a_batch_passes_over_deleted_files(before, init, present, now_ms, out, after);
            assert(out.map_values(id) =~= items.filter(stays).map_values(id));
        } else {
            let mid = choose|mid: ServerState|
                #![trigger replica_taken(mid, items.last(), present, out.last(), after)]
                replicas_taken(before, init, present, now_ms, out.drop_last(), mid)
                    && replica_taken(mid, items.last(), present, out.last(), after);
            a_batch_passes_over_deleted_files(
                before,
                init,
                present,
                now_ms,
                out.drop_last(),
                mid,
            );
            let o0 = out.drop_last().map_values(id);
            let f0 = init.filter(stays).map_values(id);
            assert(o0 == f0);
            assert(out.map_values(id) =~= o0.push(out.last().id));
            assert(items.filter(stays).map_values(id) =~= f0.push(items.last().id));
        }
    }
}

/// A record is held back just where its file has a tombstone, of whatever age.
pub proof fn files_with_a_tombstone_are_flagged(s: ServerState, items: Seq<FileRec>, i: int)
    requires
        0 <= i < items.len(),
    ensures
        buried_flags(s, items).len() == items.len(),
        buried_flags(s, items)[i] <==> s.tombstones.dom().contains(items[i].id.id),
{
}

/// Records that are taken into the chunk map one after the other change the entries of their own
/// files alone.
pub proof fn records_change_their_own_files(
    before: Chunks,
    items: Seq<FileRec>,
    present: Seq<ChunkId>,
    after: Chunks,
    f: u128,
)
    requires
        records_taken(before, items, present, after),
        forall|i: int| 0 <= i < items.len() ==> (#[trigger] items[i]).id.id != f,
    ensures
        after.files.dom().contains(f) <==> before.files.dom().contains(f),
        before.files.dom().contains(f) ==> after.files[f] == before.files[f],
    decreases items.len(),
{
    if items.len() > 0 {
        let init = items.drop_last();
        let mid = choose|mid: Chunks|
            records_taken(before, init, present, mid) && #[trigger] record_taken(
                mid,
                items.last(),
                present_flags(items.last().chunk_locations, present),
                after,
            );
        assert forall|i: int| 0 <= i < init.len() implies (#[trigger] init[i]).id.id != f by {
            assert(items[i].id.id != f);
        }
        assert(items[items.len() - 1].id.id != f);
        records_change_their_own_files(before, init, present, mid, f);
    }
}

/// A record that is taken into the chunk map by itself is taken in as it is.
pub proof fn one_record_is_taken_by_itself(
    before: Chunks,
    rec: FileRec,
    present: Seq<ChunkId>,
    after: Chunks,
)
    ensures
        records_taken(before, seq![rec], present, after) <==> record_taken(
            before,
            rec,
            present_flags(rec.chunk_locations, present),
            after,
        ),
        records_taken(before, Seq::empty(), present, after) <==> after == before,
{
    let items = seq![rec];
    assert(items.drop_last() =~= Seq::<FileRec>::empty());
    assert(items.last() == rec);
    reveal_with_fuel(records_taken, 2);
    if record_taken(before, rec, present_flags(rec.chunk_locations, present), after) {
        assert(records_taken(before, items.drop_last(), present, before));
    }
}

/// Stored locations that name their files change the entries of those files alone.
pub proof fn locations_change_their_own_files(
    before: Chunks,
    items: Seq<Loc>,
    after: Chunks,
    f: u128,
)
    requires
        locations_taken(before, items, after),
        forall|i: int|
            0 <= i < items.len() ==> (#[trigger] items[i]).file_id is Some
                && items[i].file_id->0.id != f,
    ensures
        after.files.dom().contains(f) <==> before.files.dom().contains(f),
        before.files.dom().contains(f) ==> after.files[f] == before.files[f],
    decreases items.len(),
{
    if items.len() > 0 {
        let init = items.drop_last();
        let mid = choose|mid: Chunks|
            locations_taken(before, init, mid) && #[trigger] crate::server::location_taken(
                mid,
                items.last().file_id,
                items.last(),
                after,
            );
        assert forall|i: int| 0 <= i < init.len() implies (#[trigger] init[i]).file_id is Some
            && init[i].file_id->0.id != f by {
            assert(items[i].file_id is Some);
        }
        assert(items[items.len() - 1].file_id is Some);
        locations_change_their_own_files(before, init, mid, f);
    }
}

/// Deleting a file buries it as of now, takes it from the records that are pushed and from the
/// chunk map, and frees its chunks. Nothing else changes.
pub proof fn deleting_changes_its_own_file(
    before: ServerState,
    file: FileId,
    now_ms: u64,
    after: ServerState,
    hash: [u8; 32],
)
    requires
        deleted(before, file, now_ms, after),
    ensures
        after.tombstones == before.tombstones.insert(file.id, now_ms),
        after.dirty == before.dirty.remove(file.id),
        after.chunks.files == before.chunks.files.remove(file.id),
        before.chunks.files.dom().contains(file.id) && (exists|i: int|
            0 <= i < before.chunks.files[file.id].0.len() && (
            #[trigger] before.chunks.files[file.id].0[i]).chunk_id.hash == hash)
            ==> !after.chunks.owner.dom().contains(hash),
        !before.chunks.files.dom().contains(file.id) || (forall|i: int|
            0 <= i < before.chunks.files[file.id].0.len() ==> (
            #[trigger] before.chunks.files[file.id].0[i]).chunk_id.hash != hash) ==> (
        after.chunks.owner.dom().contains(hash) <==> before.chunks.owner.dom().contains(hash)) && (
        before.chunks.owner.dom().contains(hash) ==> after.chunks.owner[hash]
            == before.chunks.owner[hash]),
        after == (ServerState {
            tombstones: after.tombstones,
            dirty: after.dirty,
            chunks: after.chunks,
            ..before
        }),
{
    if before.chunks.files.dom().contains(file.id) {
        released_chunks_are_free(before.chunks.owner, before.chunks.files[file.id].0, hash);
    }
}

/// A changed record is weighed with the age of its file's tombstone and the locations that the
/// chunk map holds of the file.
pub proof fn a_changed_record_is_weighed_by_its_file(
    s: ServerState,
    list: Seq<(u128, FileRec)>,
    now_ms: u64,
    i: int,
)
    requires
        0 <= i < list.len(),
    ensures
        dressed(s, list, now_ms).len() == list.len(),
        dressed(s, list, now_ms)[i].rec == list[i].1,
        s.tombstones.dom().contains(list[i].0) && s.tombstones[list[i].0] <= now_ms ==> dressed(
            s,
            list,
            now_ms,
        )[i].tombstone_age_ms == Some((now_ms - s.tombstones[list[i].0]) as u64),
        s.tombstones.dom().contains(list[i].0) && s.tombstones[list[i].0] > now_ms ==> dressed(
            s,
            list,
            now_ms,
        )[i].tombstone_age_ms == Some(0u64),
        !s.tombstones.dom().contains(list[i].0) ==> dressed(
            s,
            list,
            now_ms,
        )[i].tombstone_age_ms is None,
        s.chunks.files.dom().contains(list[i].0) ==> dressed(s, list, now_ms)[i].held == Some(
            s.chunks.files[list[i].0].0,
        ),
        !s.chunks.files.dom().contains(list[i].0) ==> dressed(s, list, now_ms)[i].held is None,
{
}

/// The followers are pushed every changed record, in order, but those of files deleted less than
/// thirty seconds ago; each with the locations of the chunk map where that has an entry.
pub proof fn followers_are_pushed_what_lives(items: Seq<DirtySpec>)
    ensures
        to_push(items) == items.filter(
            |d: DirtySpec| !(d.tombstone_age_ms is Some && d.tombstone_age_ms->0 < 30000),
        ).map_values(
            |d: DirtySpec|
                FileRec {
                    chunk_locations: if d.held is Some {
                        d.held->0
                    } else {
                        d.rec.chunk_locations
                    },
                    ..d.rec
                },
        ),
    decreases items.len(),
{
    reveal(Seq::filter);
    let lives = |d: DirtySpec| !(d.tombstone_age_ms is Some && d.tombstone_age_ms->0 < 30000);
    let live = |d: DirtySpec|
        FileRec {
            chunk_locations: if d.held is Some {
                d.held->0
            } else {
                d.rec.chunk_locations
            },
            ..d.rec
        };
    if items.len() > 0 {
        followers_are_pushed_what_lives(items.drop_last());
    }
    assert(items.filter(lives).map_values(live) =~= to_push(items));
}

/// Just a leader takes a put, of a file that was not deleted in the last thirty seconds. While the
/// file is being renamed the put waits.
pub proof fn a_put_waits_for_a_rename(
    s: ServerState,
    is_leader: bool,
    file: FileId,
    now_ms: u64,
)
    ensures
        put_waits(s, is_leader, file, now_ms) || put_goes_in(s, is_leader, file, now_ms)
            <==> is_leader && !(s.tombstones.dom().contains(file.id) && now_ms
            - s.tombstones[file.id] < 30000),
        put_waits(s, is_leader, file, now_ms) ==> s.pending_renames.contains(file.id),
        put_goes_in(s, is_leader, file, now_ms) ==> !s.pending_renames.contains(file.id),
{
}

/// Of a disseminated batch just the records of files without a tombstone are stored, each weighed
/// against what the chunk map holds of its own file.
pub proof fn just_living_files_are_admitted(s: ServerState, items: Seq<FileRec>, out: FileRec)
    ensures
        admitted(s, items).contains(out) <==> exists|i: int|
            {
                &&& 0 <= i < items.len()
                &&& !s.tombstones.dom().contains((#[trigger] items[i]).id.id)
                &&& out == disseminated(
                    items[i],
                    if s.chunks.files.dom().contains(items[i].id.id) {
                        Some(s.chunks.files[items[i].id.id].0)
                    } else {
                        None
                    },
                )
            },
{
    let flags = buried_flags(s, items);
    let live = alive(items, flags);
    let all = admitted(s, items);
    if all.contains(out) {
        let k = choose|k: int| 0 <= k < all.len() && all[k] == out;
        a_batch_leaves_out_the_buried(items, flags, live[k]);
        assert(live.contains(live[k]));
        let i = choose|i: int| 0 <= i < items.len() && #[trigger] items[i] == live[k] && !flags[i];
        assert(!s.tombstones.dom().contains(items[i].id.id));
    }
    if exists|i: int|
        {
            &&& 0 <= i < items.len()
            &&& !s.tombstones.dom().contains((#[trigger] items[i]).id.id)
            &&& out == disseminated(
                items[i],
                if s.chunks.files.dom().contains(items[i].id.id) {
                    Some(s.chunks.files[items[i].id.id].0)
                } else {
                    None
                },
            )
        } {
        let i = choose|i: int|
            {
                &&& 0 <= i < items.len()
                &&& !s.tombstones.dom().contains((#[trigger] items[i]).id.id)
                &&& out == disseminated(
                    items[i],
                    if s.chunks.files.dom().contains(items[i].id.id) {
                        Some(s.chunks.files[items[i].id.id].0)
                    } else {
                        None
                    },
                )
            };
        a_batch_leaves_out_the_buried(items, flags, items[i]);
        assert(!flags[i]);
        assert(live.contains(items[i]));
        let k = choose|k: int| 0 <= k < live.len() && live[k] == items[i];
        assert(all[k] == out);
    }
}

} // verus!
