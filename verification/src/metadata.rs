//! File records: taking in what clients and peers send, and passing it on.
use crate::chunk_map::{fill_up, filled_up, keep_placed, or_zero, with_place};
use crate::loc_list::{find_slot, first_filling, offset_sorted, sort_by_offset};
use crate::protocol::{DeleteQueueEntry, Response};
use crate::text::join;
use crate::types::{
    clone_locs, locs, recs, ChunkId, ChunkLocation, ErrorCode, FileId, FileMetadata, FileRec, Loc,
    NodeId, NodeInfo, NodeStatus,
};
use vstd::prelude::*;

verus! {

// ---------------------------------------------------------------------------
// Write sequences.
// ---------------------------------------------------------------------------

/// The write sequences that went missing between what is stored and what a push accounts for,
/// from the first to the last. A push without a write sequence is never held against this.
pub open spec fn gap(stored: u64, covers_from: u64, incoming: u64) -> Option<(u64, u64)> {
    if incoming > 0 && covers_from > stored + 1 {
        Some(((stored + 1) as u64, (covers_from - 1) as u64))
    } else {
        None
    }
}

/// Finds a gap in the write sequences.
pub fn detect_metadata_write_seq_gap(
    stored_write_seq: u64,
    covers_from_write_seq: u64,
    incoming_write_seq: u64,
) -> (r: Option<(u64, u64)>)
    ensures
        r == gap(stored_write_seq, covers_from_write_seq, incoming_write_seq),
{
    if incoming_write_seq > 0 && covers_from_write_seq > 0 && covers_from_write_seq - 1
        > stored_write_seq {
        Some((stored_write_seq + 1, covers_from_write_seq - 1))
    } else {
        None
    }
}

/// A push that accounts for every sequence behind the stored one shows no gap, and the gap that
/// is shown holds just the sequences that nothing accounts for.
pub proof fn gap_is_what_nothing_accounts_for(stored: u64, covers_from: u64, incoming: u64, seq: u64)
    requires
        incoming > 0,
    ensures
        (gap(stored, covers_from, incoming) is Some && (
        gap(stored, covers_from, incoming)->0).0 <= seq <= (
        gap(stored, covers_from, incoming)->0).1) <==> (stored < seq && seq < covers_from),
{
}

/// The higher of two write sequences, and whether it is the incoming one's doing.
pub open spec fn higher_seq(stored: u64, incoming: u64) -> (u64, bool) {
    if incoming > stored {
        (incoming, true)
    } else {
        (stored, false)
    }
}

/// The write sequence that is known of a file after a record came in, and whether the record is
/// of a newer session.
pub fn write_seq_after(stored: u64, incoming: u64) -> (r: (u64, bool))
    ensures
        r.1 == (incoming > stored),
        r.0 == (if incoming > stored {
            incoming
        } else {
            stored
        }),
        r == higher_seq(stored, incoming),
{
    if incoming > stored {
        (incoming, true)
    } else {
        (stored, false)
    }
}

/// The sequence that a node answers with.
pub open spec fn answered_sequence(
    is_leader: bool,
    issued: Option<u64>,
    received: Option<u64>,
) -> u64 {
    or_zero(
        if is_leader {
            issued
        } else {
            received
        },
    )
}

/// The sequence that a node answers with: as leader the one it issued last, otherwise the one it
/// received last; nothing known counts as zero.
pub fn metadata_sequence(is_leader: bool, issued: Option<u64>, received: Option<u64>) -> (r:
    Response)
    ensures
        r == (Response::MetadataSequence {
            sequence: or_zero(
                if is_leader {
                    issued
                } else {
                    received
                },
            ),
        }),
        r == (Response::MetadataSequence { sequence: answered_sequence(is_leader, issued, received) }),
{
    let known: Option<u64> = if is_leader {
        issued
    } else {
        received
    };
    let sequence: u64 = match known {
        Some(s) => s,
        None => 0,
    };
    Response::MetadataSequence { sequence }
}

/// A fetched record is stored.
pub open spec fn stores_fetched(held_write_seq: Option<u64>, incoming_write_seq: u64) -> bool {
    match held_write_seq {
        Some(held) => incoming_write_seq > held,
        None => true,
    }
}

/// Whether a record that was fetched is stored: the file is unknown here, or the record is newer.
pub fn should_store(held_write_seq: Option<u64>, incoming_write_seq: u64) -> (r: bool)
    ensures
        r == match held_write_seq {
            Some(held) => incoming_write_seq > held,
            None => true,
        },
        r == stores_fetched(held_write_seq, incoming_write_seq),
{
    match held_write_seq {
        Some(held) => incoming_write_seq > held,
        None => true,
    }
}

/// A record pulled from the leader is taken.
pub open spec fn takes_pulled(local_write_seq: Option<u64>, leader_write_seq: u64) -> bool {
    leader_write_seq > or_zero(local_write_seq)
}

/// Whether a record pulled from the leader is taken: only one that is newer than what is here,
/// and nothing counts as zero.
pub fn takes_leader_record(local_write_seq: Option<u64>, leader_write_seq: u64) -> (r: bool)
    ensures
        r == (leader_write_seq > or_zero(local_write_seq)),
        r == takes_pulled(local_write_seq, leader_write_seq),
{
    match local_write_seq {
        Some(local) => leader_write_seq > local,
        None => leader_write_seq > 0,
    }
}

// ---------------------------------------------------------------------------
// Tombstones.
// ---------------------------------------------------------------------------

/// How long a deleted file is remembered, so that what was still under way cannot bring it back.
pub const TOMBSTONE_TTL_MS: u64 = 30000;

/// What a tombstone means for a record that comes in.
#[derive(Clone, Copy, Debug, PartialEq, Eq, Structural)]
pub enum Grave {
    /// The file was not deleted.
    Absent,
    /// It was deleted just now: the record is dropped.
    Fresh,
    /// It was deleted long ago: the tombstone is forgotten, and the record taken.
    Expired,
}

pub open spec fn grave(age_ms: Option<u64>) -> Grave {
    match age_ms {
        Some(a) => if a < TOMBSTONE_TTL_MS {
            Grave::Fresh
        } else {
            Grave::Expired
        },
        None => Grave::Absent,
    }
}

pub fn tombstone(age_ms: Option<u64>) -> (r: Grave)
    ensures
        r == grave(age_ms),
{
    match age_ms {
        Some(a) => if a < TOMBSTONE_TTL_MS {
            Grave::Fresh
        } else {
            Grave::Expired
        },
        None => Grave::Absent,
    }
}

/// The chunk tombstones that can go: those whose chunk is not on disk any more, in order.
pub open spec fn spent(chunks: Seq<ChunkId>, on_disk: Seq<bool>) -> Seq<ChunkId>
    decreases chunks.len(),
{
    if chunks.len() == 0 {
        chunks
    } else {
        let sofar = spent(chunks.drop_last(), on_disk.drop_last());
        if on_disk.last() {
            sofar
        } else {
            sofar.push(chunks.last())
        }
    }
}

pub fn spent_chunk_tombstones(chunks: &Vec<ChunkId>, on_disk: &Vec<bool>) -> (r: Vec<ChunkId>)
    requires
        chunks@.len() == on_disk@.len(),
    ensures
        r@ == spent(chunks@, on_disk@),
{
    let mut out: Vec<ChunkId> = Vec::new();
    let mut i: usize = 0;
    assert(chunks@.take(0) =~= Seq::<ChunkId>::empty());
    while i < chunks.len()
        invariant
            i <= chunks@.len(),
            chunks@.len() == on_disk@.len(),
            out@ == spent(chunks@.take(i as int), on_disk@.take(i as int)),
        decreases chunks@.len() - i,
    {
        proof {
            assert(chunks@.take(i + 1).drop_last() =~= chunks@.take(i as int));
            assert(on_disk@.take(i + 1).drop_last() =~= on_disk@.take(i as int));
        }
        if !on_disk[i] {
            out.push(chunks[i]);
        }
        i += 1;
    }
    assert(chunks@.take(i as int) =~= chunks@);
    assert(on_disk@.take(i as int) =~= on_disk@);
    out
}

// ---------------------------------------------------------------------------
// A record put by a client.
// ---------------------------------------------------------------------------

/// What becomes of a record that a client puts.
#[derive(Debug)]
pub enum PutAdmission {
    /// Answer this; the record goes no further.
    Answer(Response),
    /// Take the record, and forget the file's tombstone if it has one.
    Take { forget_tombstone: bool },
}

/// A put is taken in.
pub open spec fn put_is_taken(is_leader: bool, tombstone_age_ms: Option<u64>) -> bool {
    is_leader && grave(tombstone_age_ms) != Grave::Fresh
}

/// The tombstone is forgotten when a put is taken in.
pub open spec fn put_forgets_tombstone(tombstone_age_ms: Option<u64>) -> bool {
    grave(tombstone_age_ms) == Grave::Expired
}

/// Decides on a record that a client puts. Only the leader takes records; a file deleted just
/// now is acknowledged, so that the client does not try again, but not brought back.
pub fn put_admission(
    is_leader: bool,
    leader_addr: Option<String>,
    tombstone_age_ms: Option<u64>,
) -> (r: PutAdmission)
    ensures
        !is_leader ==> r is Answer && match r->Answer_0 {
            Response::NotLeader { leader_addr: a } => a == leader_addr,
            _ => false,
        },
        is_leader && grave(tombstone_age_ms) == Grave::Fresh ==> r is Answer
            && r->Answer_0.acknowledges(),
        is_leader && grave(tombstone_age_ms) != Grave::Fresh ==> r == (PutAdmission::Take {
            forget_tombstone: grave(tombstone_age_ms) == Grave::Expired,
        }),
        r is Take <==> put_is_taken(is_leader, tombstone_age_ms),
        r is Take ==> r->forget_tombstone == put_forgets_tombstone(tombstone_age_ms),
{
    if !is_leader {
        return PutAdmission::Answer(Response::NotLeader { leader_addr });
    }
    match tombstone(tombstone_age_ms) {
        Grave::Fresh => PutAdmission::Answer(Response::Done { data: None }),
        Grave::Expired => PutAdmission::Take { forget_tombstone: true },
        Grave::Absent => PutAdmission::Take { forget_tombstone: false },
    }
}

/// The held location is newer than the one put for its slot: by write time where the put one has
/// one; else it has a client write sequence and the put one has none or a lower one.
pub open spec fn held_is_newer(put: Loc, held: Loc) -> bool {
    match put.written_at {
        Some(t) => or_zero(held.written_at) > t,
        None => match (put.client_write_seq, held.client_write_seq) {
            (None, Some(_)) => true,
            (Some(inc), Some(ext)) => ext > inc,
            _ => false,
        },
    }
}

/// A put location, or the held one of its slot where that is newer.
pub open spec fn newer_of(put: Loc, held: Seq<Loc>) -> Loc {
    match put.slot() {
        Some(slot) => match first_filling(held, slot) {
            Some(i) => if held_is_newer(put, held[i]) {
                held[i]
            } else {
                put
            },
            None => put,
        },
        None => put,
    }
}

/// A put record as it is stored. It never moves the file: its path is the one already known.
/// Where the chunk map has an entry, each location gives way to a newer held one, slots that
/// only the entry fills are added unless the record has no locations at all, and the locations
/// are put in offset order.
pub open spec fn put_reconciled(
    rec: FileRec,
    known_path: Option<Seq<char>>,
    held: Option<Seq<Loc>>,
) -> FileRec {
    FileRec {
        path: match known_path {
            Some(p) => p,
            None => rec.path,
        },
        chunk_locations: match held {
            Some(h) => {
                let newer = rec.chunk_locations.map_values(|l: Loc| newer_of(l, h));
                if newer.len() > 0 {
                    offset_sorted(filled_up(newer, with_place(h)))
                } else {
                    newer
                }
            },
            None => rec.chunk_locations,
        },
        ..rec
    }
}

fn held_is_newer_exec(put: &ChunkLocation, held: &ChunkLocation) -> (r: bool)
    ensures
        r == held_is_newer(put@, held@),
{
    match put.written_at {
        Some(t) => match held.written_at {
            Some(h) => h > t,
            None => false,
        },
        None => match (put.client_write_seq, held.client_write_seq) {
            (None, Some(_)) => true,
            (Some(inc), Some(ext)) => ext > inc,
            _ => false,
        },
    }
}

/// Reconciles a record that a client put with what is known of the file.
pub fn reconcile_put(
    metadata: FileMetadata,
    known_path: Option<String>,
    held: Option<&Vec<ChunkLocation>>,
) -> (r: FileMetadata)
    ensures
        r@ == put_reconciled(
            metadata@,
            match known_path {
                Some(p) => Some(p@),
                None => None,
            },
            match held {
                Some(h) => Some(locs(h@)),
                None => None,
            },
        ),
{
    let mut m: FileMetadata = metadata;
    let ghost rec = m@;
    match known_path {
        Some(p) => {
            m.path = p;
        },
        None => {},
    }
    match held {
        Some(h) => {
            let ghost hs = locs(h@);
            let ghost want = rec.chunk_locations.map_values(|l: Loc| newer_of(l, hs));
            let mut out: Vec<ChunkLocation> = Vec::new();
            let mut i: usize = 0;
            let list: &Vec<ChunkLocation> = &m.chunk_locations;
            while i < list.len()
                invariant
                    i <= list@.len(),
                    locs(list@) == rec.chunk_locations,
                    hs == locs(h@),
                    want == rec.chunk_locations.map_values(|l: Loc| newer_of(l, hs)),
                    locs(out@) =~= want.take(i as int),
                decreases list@.len() - i,
            {
                let put: &ChunkLocation = &list[i];
                let ghost before = locs(out@);
                assert(rec.chunk_locations[i as int] == put@);
                let l: ChunkLocation = match put.slot() {
                    Some(slot) => match find_slot(h, slot) {
                        Some(p) => {
                            assert(hs[p as int] == h@[p as int]@);
                            if held_is_newer_exec(put, &h[p]) {
                                h[p].clone()
                            } else {
                                put.clone()
                            }
                        },
                        None => put.clone(),
                    },
                    None => put.clone(),
                };
                let ghost lv = l@;
                assert(lv == newer_of(put@, hs));
                out.push(l);
                assert(locs(out@) =~= before.push(lv));
                i += 1;
            }
            assert(want.take(i as int) =~= want);
            if out.len() > 0 {
                let extra: Vec<ChunkLocation> = keep_placed(clone_locs(h));
                m.chunk_locations = sort_by_offset(fill_up(out, &extra));
            } else {
                m.chunk_locations = out;
            }
        },
        None => {},
    }
    m
}

/// What follows the put: whether the file is marked for the next push to followers, and whether
/// the record is stored before the client is answered. A file without data yet, at no write
/// sequence, is stored at once, so that a delete right behind it finds it.
pub fn put_follow_up(metadata: &FileMetadata) -> (r: (bool, bool))
    ensures
        r.0 == (metadata@.write_seq > 0 || metadata@.chunk_locations.len() > 0),
        r.1 == !r.0,
        r.0 == worth_telling(metadata@),
{
    let dirty: bool = metadata.write_seq > 0 || metadata.chunk_locations.len() > 0;
    (dirty, !dirty)
}

proof fn filled_up_keeps(held: Seq<Loc>, extra: Seq<Loc>, l: Loc)
    requires
        held.contains(l),
    ensures
        filled_up(held, extra).contains(l),
    decreases extra.len(),
{
    if extra.len() > 0 {
        filled_up_keeps(held, extra.drop_last(), l);
        let f0 = filled_up(held, extra.drop_last());
        let f = filled_up(held, extra);
        let k = choose|k: int| 0 <= k < f0.len() && f0[k] == l;
        assert(f[k] == l);
    }
}

proof fn filled_up_fills(held: Seq<Loc>, extra: Seq<Loc>, slot: u64)
    requires
        crate::loc_list::fills(extra, slot),
    ensures
        crate::loc_list::fills(filled_up(held, extra), slot),
    decreases extra.len(),
{
    let init = extra.drop_last();
    let f0 = filled_up(held, init);
    let f = filled_up(held, extra);
    let i = choose|i: int| 0 <= i < extra.len() && (#[trigger] extra[i]).slot() == Some(slot);
    if i < init.len() {
        assert(init[i].slot() == Some(slot));
        filled_up_fills(held, init, slot);
    }
    if crate::loc_list::fills(f0, slot) {
        let k = choose|k: int| 0 <= k < f0.len() && (#[trigger] f0[k]).slot() == Some(slot);
        assert(f[k].slot() == Some(slot));
    } else {
        assert(extra.last().slot() == Some(slot));
        assert(f[f0.len() as int].slot() == Some(slot));
    }
}

pub(crate) proof fn with_place_fills(list: Seq<Loc>, slot: u64)
    requires
        crate::loc_list::fills(list, slot),
    ensures
        crate::loc_list::fills(with_place(list), slot),
    decreases list.len(),
{
    let init = list.drop_last();
    let i = choose|i: int| 0 <= i < list.len() && (#[trigger] list[i]).slot() == Some(slot);
    let w = with_place(list);
    if i < init.len() {
        assert(init[i].slot() == Some(slot));
        with_place_fills(init, slot);
        let w0 = with_place(init);
        let k = choose|k: int| 0 <= k < w0.len() && (#[trigger] w0[k]).slot() == Some(slot);
        assert(w[k].slot() == Some(slot));
    } else {
        assert(w[w.len() - 1].slot() == Some(slot));
    }
}

/// A put never loses a slot: unless it has no locations at all, every slot that the chunk map or
/// the put record fills is filled in the stored record, which is in offset order.
pub proof fn put_never_loses_a_slot(
    rec: FileRec,
    known_path: Option<Seq<char>>,
    held: Seq<Loc>,
    slot: u64,
)
    requires
        rec.chunk_locations.len() > 0,
        crate::loc_list::fills(rec.chunk_locations, slot) || crate::loc_list::fills(held, slot),
    ensures
        crate::loc_list::fills(
            put_reconciled(rec, known_path, Some(held)).chunk_locations,
            slot,
        ),
        crate::loc_list::by_offset(put_reconciled(rec, known_path, Some(held)).chunk_locations),
{
    let newer = rec.chunk_locations.map_values(|l: Loc| newer_of(l, held));
    let all = filled_up(newer, with_place(held));
    let out = offset_sorted(all);
    crate::loc_list::offset_sorted_is_sorted(all);
    let l = if crate::loc_list::fills(held, slot) {
        with_place_fills(held, slot);
        filled_up_fills(newer, with_place(held), slot);
        let k = choose|k: int| 0 <= k < all.len() && (#[trigger] all[k]).slot() == Some(slot);
        all[k]
    } else {
        let i = choose|i: int|
            0 <= i < rec.chunk_locations.len() && (#[trigger] rec.chunk_locations[i]).slot()
                == Some(slot);
        crate::loc_list::first_filling_is_first(held, slot);
        assert(newer[i] == newer_of(rec.chunk_locations[i], held));
        assert(newer[i].slot() == Some(slot));
        assert(newer.contains(newer[i]));
        filled_up_keeps(newer, with_place(held), newer[i]);
        newer[i]
    };
    assert(all.contains(l));
    broadcast use vstd::seq_lib::group_to_multiset_ensures;

    assert(all.to_multiset().count(l) > 0);
    assert(out.contains(l));
    let k = choose|k: int| 0 <= k < out.len() && out[k] == l;
    assert(out[k].slot() == Some(slot));
}

// ---------------------------------------------------------------------------
// A record replicated by a peer.
// ---------------------------------------------------------------------------

/// The first location of a list at just this offset.
pub open spec fn first_at(list: Seq<Loc>, offset: u64) -> Option<int>
    decreases list.len(),
{
    if list.len() == 0 {
        None
    } else {
        match first_at(list.drop_last(), offset) {
            Some(i) => Some(i),
            None => if list.last().file_offset == Some(offset) {
                Some(list.len() - 1)
            } else {
                None
            },
        }
    }
}

pub(crate) proof fn first_at_in_range(list: Seq<Loc>, offset: u64)
    ensures
        match first_at(list, offset) {
            Some(i) => 0 <= i < list.len() && list[i].file_offset == Some(offset) && forall|j: int|
                0 <= j < i ==> (#[trigger] list[j]).file_offset != Some(offset),
            None => forall|j: int|
                0 <= j < list.len() ==> (#[trigger] list[j]).file_offset != Some(offset),
        },
    decreases list.len(),
{
    if list.len() > 0 {
        first_at_in_range(list.drop_last(), offset);
        assert forall|j: int| 0 <= j < list.len() - 1 implies list.drop_last()[j] == list[j] by {}
        if first_at(list.drop_last(), offset) is None {
            assert forall|j: int| 0 <= j < list.len() - 1 implies (#[trigger] list[j]).file_offset
                != Some(offset) by {
                assert(list.drop_last()[j].file_offset != Some(offset));
            }
        }
    }
}

fn find_offset(list: &Vec<ChunkLocation>, offset: u64) -> (r: Option<usize>)
    ensures
        match r {
            Some(i) => first_at(locs(list@), offset) == Some(i as int) && i < list@.len(),
            None => first_at(locs(list@), offset) is None,
        },
{
    let mut i: usize = 0;
    while i < list.len()
        invariant
            i <= list@.len(),
            forall|j: int| 0 <= j < i ==> (#[trigger] locs(list@)[j]).file_offset != Some(offset),
        decreases list@.len() - i,
    {
        assert(locs(list@)[i as int] == list@[i as int]@);
        if list[i].file_offset == Some(offset) {
            proof {
                first_at_in_range(locs(list@), offset);
            }
            return Some(i);
        }
        i += 1;
    }
    proof {
        first_at_in_range(locs(list@), offset);
    }
    None
}

/// The held location stays against a replicated one at its offset: it names another chunk, and
/// either was written later than the replicated one, or was patched while the replicated one is
/// untimed and of no newer session.
pub open spec fn held_stays(incoming: Loc, held: Loc, newer_session: bool) -> bool {
    held.chunk_id != incoming.chunk_id && match incoming.written_at {
        Some(t) => or_zero(held.written_at) > t,
        None => held.written_at is Some && !newer_session,
    }
}

/// A replicated location, or the held one at its offset where that stays.
pub open spec fn guarded(incoming: Loc, held: Seq<Loc>, newer_session: bool) -> Loc {
    match incoming.file_offset {
        Some(o) => match first_at(held, o) {
            Some(i) => if held_stays(incoming, held[i], newer_session) {
                held[i]
            } else {
                incoming
            },
            None => incoming,
        },
        None => incoming,
    }
}

/// A replicated record as it is taken in.
pub open spec fn replicated(rec: FileRec, held: Option<Seq<Loc>>, newer_session: bool) -> FileRec {
    FileRec {
        chunk_locations: match held {
            Some(h) => rec.chunk_locations.map_values(|l: Loc| guarded(l, h, newer_session)),
            None => rec.chunk_locations,
        },
        ..rec
    }
}

fn held_stays_exec(incoming: &ChunkLocation, held: &ChunkLocation, newer_session: bool) -> (r: bool)
    ensures
        r == held_stays(incoming@, held@, newer_session),
{
    if held.chunk_id == incoming.chunk_id {
        return false;
    }
    match incoming.written_at {
        Some(t) => match held.written_at {
            Some(h) => h > t,
            None => false,
        },
        None => held.written_at.is_some() && !newer_session,
    }
}

/// Guards a replicated record against what the chunk map holds of the file.
pub fn reconcile_replicated(
    metadata: FileMetadata,
    held: Option<&Vec<ChunkLocation>>,
    newer_session: bool,
) -> (r: FileMetadata)
    ensures
        r@ == replicated(
            metadata@,
            match held {
                Some(h) => Some(locs(h@)),
                None => None,
            },
            newer_session,
        ),
{
    let mut m: FileMetadata = metadata;
    let ghost rec = m@;
    match held {
        Some(h) => {
            let ghost hs = locs(h@);
            let ghost want = rec.chunk_locations.map_values(|l: Loc| guarded(l, hs, newer_session));
            let mut out: Vec<ChunkLocation> = Vec::new();
            let mut i: usize = 0;
            let list: &Vec<ChunkLocation> = &m.chunk_locations;
            while i < list.len()
                invariant
                    i <= list@.len(),
                    locs(list@) == rec.chunk_locations,
                    hs == locs(h@),
                    want == rec.chunk_locations.map_values(|l: Loc| guarded(l, hs, newer_session)),
                    locs(out@) =~= want.take(i as int),
                decreases list@.len() - i,
            {
                let put: &ChunkLocation = &list[i];
                let ghost before = locs(out@);
                assert(rec.chunk_locations[i as int] == put@);
                let l: ChunkLocation = match put.file_offset {
                    Some(o) => match find_offset(h, o) {
                        Some(p) => {
                            assert(hs[p as int] == h@[p as int]@);
                            if held_stays_exec(put, &h[p], newer_session) {
                                h[p].clone()
                            } else {
                                put.clone()
                            }
                        },
                        None => put.clone(),
                    },
                    None => put.clone(),
                };
                let ghost lv = l@;
                assert(lv == guarded(put@, hs, newer_session));
                out.push(l);
                assert(locs(out@) =~= before.push(lv));
                i += 1;
            }
            assert(want.take(i as int) =~= want);
            m.chunk_locations = out;
        },
        None => {},
    }
    m
}

/// A patched chunk that the map holds is not undone by a record of the same session that carries
/// no write time, nor by one that was written before it.
pub proof fn replication_never_undoes_a_patch(
    rec: FileRec,
    held: Seq<Loc>,
    newer_session: bool,
    i: int,
    j: int,
)
    requires
        0 <= i < rec.chunk_locations.len(),
        rec.chunk_locations[i].file_offset is Some,
        first_at(held, rec.chunk_locations[i].file_offset->0) == Some(j),
        held[j].written_at is Some,
        match rec.chunk_locations[i].written_at {
            Some(t) => t < held[j].written_at->0,
            None => !newer_session,
        },
    ensures
        replicated(rec, Some(held), newer_session).chunk_locations[i].chunk_id == held[j].chunk_id,
        held[j].chunk_id != rec.chunk_locations[i].chunk_id ==> replicated(
            rec,
            Some(held),
            newer_session,
        ).chunk_locations[i] == held[j],
{
}

/// With how many hops something travels on.
pub open spec fn hops_left(ttl: u8) -> Option<u8> {
    if ttl > 0 {
        Some((ttl - 1) as u8)
    } else {
        None
    }
}

/// Where a replicated record travels on: with one hop less to every other online node, unless
/// its hops are used up.
pub fn forwarded_ttl(ttl: u8) -> (r: Option<u8>)
    ensures
        r == (if ttl > 0 {
            Some((ttl - 1) as u8)
        } else {
            None
        }),
        r == hops_left(ttl),
{
    if ttl > 0 {
        Some(ttl - 1)
    } else {
        None
    }
}

/// A replicated record is queued for the leader.
pub open spec fn queued_for_leader(ttl: u8, is_leader: bool, leader_is_self: bool) -> bool {
    ttl > 0 && !is_leader && !leader_is_self
}

/// Whether a replicated record is also queued for the leader: it came from a client, this node
/// is not the leader, and the leader is not known to be this node.
pub fn queues_for_leader(ttl: u8, is_leader: bool, leader_is_self: bool) -> (r: bool)
    ensures
        r == (ttl > 0 && !is_leader && !leader_is_self),
        r == queued_for_leader(ttl, is_leader, leader_is_self),
{
    ttl > 0 && !is_leader && !leader_is_self
}

// ---------------------------------------------------------------------------
// Records disseminated by the leader.
// ---------------------------------------------------------------------------

/// A disseminated location, or the held one of its slot if that names another chunk.
pub open spec fn as_held(incoming: Loc, held: Seq<Loc>) -> Loc {
    match incoming.slot() {
        Some(slot) => match first_filling(held, slot) {
            Some(i) => if held[i].chunk_id != incoming.chunk_id {
                held[i]
            } else {
                incoming
            },
            None => incoming,
        },
        None => incoming,
    }
}

/// A disseminated record as it is stored.
pub open spec fn disseminated(rec: FileRec, held: Option<Seq<Loc>>) -> FileRec {
    FileRec {
        chunk_locations: match held {
            Some(h) => rec.chunk_locations.map_values(|l: Loc| as_held(l, h)),
            None => rec.chunk_locations,
        },
        ..rec
    }
}

/// Reconciles a disseminated record with what the chunk map holds of the file.
pub fn reconcile_disseminated(metadata: FileMetadata, held: Option<&Vec<ChunkLocation>>) -> (r:
    FileMetadata)
    ensures
        r@ == disseminated(
            metadata@,
            match held {
                Some(h) => Some(locs(h@)),
                None => None,
            },
        ),
{
    let mut m: FileMetadata = metadata;
    let ghost rec = m@;
    match held {
        Some(h) => {
            let ghost hs = locs(h@);
            let ghost want = rec.chunk_locations.map_values(|l: Loc| as_held(l, hs));
            let mut out: Vec<ChunkLocation> = Vec::new();
            let mut i: usize = 0;
            let list: &Vec<ChunkLocation> = &m.chunk_locations;
            while i < list.len()
                invariant
                    i <= list@.len(),
                    locs(list@) == rec.chunk_locations,
                    hs == locs(h@),
                    want == rec.chunk_locations.map_values(|l: Loc| as_held(l, hs)),
                    locs(out@) =~= want.take(i as int),
                decreases list@.len() - i,
            {
                let put: &ChunkLocation = &list[i];
                let ghost before = locs(out@);
                assert(rec.chunk_locations[i as int] == put@);
                let l: ChunkLocation = match put.slot() {
                    Some(slot) => match find_slot(h, slot) {
                        Some(p) => {
                            assert(hs[p as int] == h@[p as int]@);
                            if h[p].chunk_id != put.chunk_id {
                                h[p].clone()
                            } else {
                                put.clone()
                            }
                        },
                        None => put.clone(),
                    },
                    None => put.clone(),
                };
                let ghost lv = l@;
                assert(lv == as_held(put@, hs));
                out.push(l);
                assert(locs(out@) =~= before.push(lv));
                i += 1;
            }
            assert(want.take(i as int) =~= want);
            m.chunk_locations = out;
        },
        None => {},
    }
    m
}

/// The records whose file has no tombstone, in order.
pub open spec fn alive(items: Seq<FileRec>, buried: Seq<bool>) -> Seq<FileRec>
    decreases items.len(),
{
    if items.len() == 0 {
        items
    } else {
        let sofar = alive(items.drop_last(), buried.drop_last());
        if buried.last() {
            sofar
        } else {
            sofar.push(items.last())
        }
    }
}

/// Drops the records that are marked.
pub fn drop_marked(items: Vec<FileMetadata>, marked: &Vec<bool>) -> (r: Vec<FileMetadata>)
    requires
        items@.len() == marked@.len(),
    ensures
        recs(r@) == alive(recs(items@), marked@),
{
    let ghost all = recs(items@);
    let mut out: Vec<FileMetadata> = Vec::new();
    let mut i: usize = 0;
    assert(all.take(0) =~= Seq::<FileRec>::empty());
    assert(recs(out@) =~= Seq::<FileRec>::empty());
    while i < items.len()
        invariant
            i <= items@.len(),
            items@.len() == marked@.len(),
            all == recs(items@),
            recs(out@) == alive(all.take(i as int), marked@.take(i as int)),
        decreases items@.len() - i,
    {
        proof {
            assert(all.take(i + 1).drop_last() =~= all.take(i as int));
            assert(marked@.take(i + 1).drop_last() =~= marked@.take(i as int));
            assert(all.take(i + 1).last() == items@[i as int]@);
        }
        let ghost before = recs(out@);
        if !marked[i] {
            out.push(items[i].clone());
            assert(recs(out@) =~= before.push(items@[i as int]@));
        }
        i += 1;
    }
    assert(all.take(i as int) =~= all);
    assert(marked@.take(i as int) =~= marked@);
    out
}

/// What storing a record came to: it was stored, or a newer one is held.
#[derive(Debug)]
pub enum PutFileResult {
    Stored,
    Stale(FileMetadata),
}

/// The records that were stored.
pub open spec fn stored_of(items: Seq<FileRec>, results: Seq<PutFileResult>) -> Seq<FileRec>
    decreases items.len(),
{
    if items.len() == 0 {
        items
    } else {
        let sofar = stored_of(items.drop_last(), results.drop_last());
        match results.last() {
            PutFileResult::Stored => sofar.push(items.last()),
            PutFileResult::Stale(_) => sofar,
        }
    }
}

/// The newer records that are held, which the leader is to be told of.
pub open spec fn corrections_of(results: Seq<PutFileResult>) -> Seq<FileRec>
    decreases results.len(),
{
    if results.len() == 0 {
        Seq::empty()
    } else {
        let sofar = corrections_of(results.drop_last());
        match results.last() {
            PutFileResult::Stored => sofar,
            PutFileResult::Stale(newer) => sofar.push(newer@),
        }
    }
}

/// Parts the results of storing a batch into what was stored and what the leader is told of.
pub fn split_results(items: &Vec<FileMetadata>, results: &Vec<PutFileResult>) -> (r: (
    Vec<FileMetadata>,
    Vec<FileMetadata>,
))
    requires
        items@.len() == results@.len(),
    ensures
        recs(r.0@) == stored_of(recs(items@), results@),
        recs(r.1@) == corrections_of(results@),
{
    let ghost all = recs(items@);
    let mut stored: Vec<FileMetadata> = Vec::new();
    let mut corrections: Vec<FileMetadata> = Vec::new();
    let mut i: usize = 0;
    assert(all.take(0) =~= Seq::<FileRec>::empty());
    assert(results@.take(0) =~= Seq::<PutFileResult>::empty());
    assert(recs(stored@) =~= Seq::<FileRec>::empty());
    assert(recs(corrections@) =~= Seq::<FileRec>::empty());
    while i < items.len()
        invariant
            i <= items@.len(),
            items@.len() == results@.len(),
            all == recs(items@),
            recs(stored@) == stored_of(all.take(i as int), results@.take(i as int)),
            recs(corrections@) == corrections_of(results@.take(i as int)),
        decreases items@.len() - i,
    {
        proof {
            assert(all.take(i + 1).drop_last() =~= all.take(i as int));
            assert(results@.take(i + 1).drop_last() =~= results@.take(i as int));
            assert(all.take(i + 1).last() == items@[i as int]@);
        }
        let ghost s0 = recs(stored@);
        let ghost c0 = recs(corrections@);
        match &results[i] {
            PutFileResult::Stored => {
                stored.push(items[i].clone());
                assert(recs(stored@) =~= s0.push(items@[i as int]@));
            },
            PutFileResult::Stale(newer) => {
                corrections.push(newer.clone());
                assert(recs(corrections@) =~= c0.push(newer@));
            },
        }
        i += 1;
    }
    assert(all.take(i as int) =~= all);
    assert(results@.take(i as int) =~= results@);
    (stored, corrections)
}

/// The reply to a disseminated batch, and the sequence to note as received, are right: what could
/// not be stored is refused as a whole, and records that come with no sequence leave the noted
/// one alone.
pub open spec fn is_disseminate_reply(
    r: (Response, Option<u64>),
    failure: Option<String>,
    up_to_sequence: u64,
) -> bool {
    match failure {
        Some(why) => r.0.refuses(
            "disseminate: batch store failed: "@ + why@,
            ErrorCode::InternalError,
        ) && r.1 is None,
        None => r.0.acknowledges() && r.1 == (if up_to_sequence > 0 {
            Some(up_to_sequence)
        } else {
            None
        }),
    }
}

/// The reply to a disseminated batch, and the sequence to note as received.
pub fn disseminate_reply(failure: Option<String>, up_to_sequence: u64) -> (r: (
    Response,
    Option<u64>,
))
    ensures
        is_disseminate_reply(r, failure, up_to_sequence),
{
    match failure {
        Some(why) => (
            Response::refusal(
                join("disseminate: batch store failed: ", why.as_str()),
                ErrorCode::InternalError,
            ),
            None,
        ),
        None => {
            let note: Option<u64> = if up_to_sequence > 0 {
                Some(up_to_sequence)
            } else {
                None
            };
            (Response::Done { data: None }, note)
        },
    }
}

/// The batch to disseminate out of a follower's queue, and the sequence that it reaches: records
/// of files that still exist, up to the last one queued. Nothing is sent for an empty queue.
pub open spec fn queue_batch(items: Seq<(u64, FileRec)>, exists_now: Seq<bool>) -> Seq<FileRec>
    decreases items.len(),
{
    if items.len() == 0 {
        Seq::empty()
    } else {
        let sofar = queue_batch(items.drop_last(), exists_now.drop_last());
        if exists_now.last() {
            sofar.push(items.last().1)
        } else {
            sofar
        }
    }
}

pub open spec fn queued(s: Seq<(u64, FileMetadata)>) -> Seq<(u64, FileRec)> {
    s.map_values(|e: (u64, FileMetadata)| (e.0, e.1@))
}

pub fn dissemination_batch(items: &Vec<(u64, FileMetadata)>, exists_now: &Vec<bool>) -> (r: Option<
    (Vec<FileMetadata>, u64),
>)
    requires
        items@.len() == exists_now@.len(),
    ensures
        items@.len() == 0 ==> r is None,
        items@.len() > 0 ==> r is Some && recs((r->0).0@) == queue_batch(
            queued(items@),
            exists_now@,
        ) && (r->0).1 == items@.last().0,
{
    let n: usize = items.len();
    if n == 0 {
        return None;
    }
    let ghost all = queued(items@);
    let mut out: Vec<FileMetadata> = Vec::new();
    let mut i: usize = 0;
    assert(all.take(0) =~= Seq::<(u64, FileRec)>::empty());
    assert(recs(out@) =~= Seq::<FileRec>::empty());
    while i < n
        invariant
            i <= n,
            n == items@.len(),
            items@.len() == exists_now@.len(),
            all == queued(items@),
            recs(out@) == queue_batch(all.take(i as int), exists_now@.take(i as int)),
        decreases n - i,
    {
        proof {
            assert(all.take(i + 1).drop_last() =~= all.take(i as int));
            assert(exists_now@.take(i + 1).drop_last() =~= exists_now@.take(i as int));
            assert(all.take(i + 1).last() == (items@[i as int].0, items@[i as int].1@));
        }
        let ghost before = recs(out@);
        if exists_now[i] {
            out.push(items[i].1.clone());
            assert(recs(out@) =~= before.push(items@[i as int].1@));
        }
        i += 1;
    }
    assert(all.take(i as int) =~= all);
    assert(exists_now@.take(i as int) =~= exists_now@);
    let up_to: u64 = items[n - 1].0;
    Some((out, up_to))
}

// ---------------------------------------------------------------------------
// Who is told.
// ---------------------------------------------------------------------------

/// The other nodes that are online, in order.
pub open spec fn online_peers(nodes: Seq<NodeInfo>, local: NodeId) -> Seq<NodeId>
    decreases nodes.len(),
{
    if nodes.len() == 0 {
        Seq::empty()
    } else {
        let sofar = online_peers(nodes.drop_last(), local);
        if nodes.last().id != local && nodes.last().status == NodeStatus::Online {
            sofar.push(nodes.last().id)
        } else {
            sofar
        }
    }
}

/// The other nodes that are not online, in order.
pub open spec fn absent_peers(nodes: Seq<NodeInfo>, local: NodeId) -> Seq<NodeId>
    decreases nodes.len(),
{
    if nodes.len() == 0 {
        Seq::empty()
    } else {
        let sofar = absent_peers(nodes.drop_last(), local);
        if nodes.last().id != local && nodes.last().status != NodeStatus::Online {
            sofar.push(nodes.last().id)
        } else {
            sofar
        }
    }
}

/// A broadcast goes to the other nodes that are online.
pub fn broadcast_targets(nodes: &Vec<NodeInfo>, local: NodeId) -> (r: Vec<NodeId>)
    ensures
        r@ == online_peers(nodes@, local),
{
    let mut out: Vec<NodeId> = Vec::new();
    let mut i: usize = 0;
    assert(nodes@.take(0) =~= Seq::<NodeInfo>::empty());
    while i < nodes.len()
        invariant
            i <= nodes@.len(),
            out@ == online_peers(nodes@.take(i as int), local),
        decreases nodes@.len() - i,
    {
        proof {
            assert(nodes@.take(i + 1).drop_last() =~= nodes@.take(i as int));
            assert(nodes@.take(i + 1).last() == nodes@[i as int]);
        }
        if nodes[i].id != local && nodes[i].status == NodeStatus::Online {
            out.push(nodes[i].id);
        }
        i += 1;
    }
    assert(nodes@.take(i as int) =~= nodes@);
    out
}

/// The file has something worth telling: a write sequence, or locations.
pub open spec fn worth_telling(rec: FileRec) -> bool {
    rec.write_seq > 0 || rec.chunk_locations.len() > 0
}

/// The followers that a record is queued for.
pub open spec fn followers_queued_for(
    rec: FileRec,
    is_leader: bool,
    nodes: Seq<NodeInfo>,
    local: NodeId,
) -> Seq<NodeId> {
    if is_leader && worth_telling(rec) {
        absent_peers(nodes, local)
    } else {
        Seq::empty()
    }
}

/// The followers that a record is queued for: those that are not online, for only they miss the
/// broadcast. Only the leader queues, and only a record that is worth telling.
pub fn enqueue_metadata_for_followers(
    metadata: &FileMetadata,
    is_leader: bool,
    nodes: &Vec<NodeInfo>,
    local: NodeId,
) -> (r: Vec<NodeId>)
    ensures
        r@ == (if is_leader && worth_telling(metadata@) {
            absent_peers(nodes@, local)
        } else {
            Seq::<NodeId>::empty()
        }),
        r@ == followers_queued_for(metadata@, is_leader, nodes@, local),
{
    let mut out: Vec<NodeId> = Vec::new();
    if !is_leader || (metadata.write_seq == 0 && metadata.chunk_locations.len() == 0) {
        return out;
    }
    let mut i: usize = 0;
    assert(nodes@.take(0) =~= Seq::<NodeInfo>::empty());
    while i < nodes.len()
        invariant
            i <= nodes@.len(),
            out@ == absent_peers(nodes@.take(i as int), local),
        decreases nodes@.len() - i,
    {
        proof {
            assert(nodes@.take(i + 1).drop_last() =~= nodes@.take(i as int));
            assert(nodes@.take(i + 1).last() == nodes@[i as int]);
        }
        if nodes[i].id != local && nodes[i].status != NodeStatus::Online {
            out.push(nodes[i].id);
        }
        i += 1;
    }
    assert(nodes@.take(i as int) =~= nodes@);
    out
}

/// Every other node hears of a record that is worth telling exactly one way: at once if it is
/// online, through its queue if it is not.
pub proof fn every_peer_is_told_one_way(nodes: Seq<NodeInfo>, local: NodeId)
    ensures
        forall|i: int|
            0 <= i < nodes.len() && (#[trigger] nodes[i]).id != local ==> if nodes[i].status
                == NodeStatus::Online {
                online_peers(nodes, local).contains(nodes[i].id)
            } else {
                absent_peers(nodes, local).contains(nodes[i].id)
            },
        online_peers(nodes, local).len() + absent_peers(nodes, local).len() == others(
            nodes,
            local,
        ),
    decreases nodes.len(),
{
    if nodes.len() > 0 {
        let init = nodes.drop_last();
        every_peer_is_told_one_way(init, local);
        let on = online_peers(nodes, local);
        let off = absent_peers(nodes, local);
        assert forall|i: int|
            0 <= i < nodes.len() && (#[trigger] nodes[i]).id != local implies if nodes[i].status
            == NodeStatus::Online {
            on.contains(nodes[i].id)
        } else {
            off.contains(nodes[i].id)
        } by {
            let id = nodes[i].id;
            if i < init.len() {
                assert(init[i] == nodes[i]);
                if nodes[i].status == NodeStatus::Online {
                    let k = choose|k: int|
                        0 <= k < online_peers(init, local).len() && online_peers(init, local)[k]
                            == id;
                    assert(on[k] == id);
                } else {
                    let k = choose|k: int|
                        0 <= k < absent_peers(init, local).len() && absent_peers(init, local)[k]
                            == id;
                    assert(off[k] == id);
                }
            } else if nodes[i].status == NodeStatus::Online {
                assert(on[on.len() - 1] == id);
            } else {
                assert(off[off.len() - 1] == id);
            }
        }
    }
}

/// How many of the nodes are not this one.
pub open spec fn others(nodes: Seq<NodeInfo>, local: NodeId) -> nat
    decreases nodes.len(),
{
    if nodes.len() == 0 {
        0
    } else {
        others(nodes.drop_last(), local) + if nodes.last().id != local {
            1nat
        } else {
            0nat
        }
    }
}

/// A record with the locations of the chunk map's entry, where there is one.
pub open spec fn with_held_locations(rec: FileRec, held: Option<Seq<Loc>>) -> FileRec {
    FileRec {
        chunk_locations: match held {
            Some(h) => h,
            None => rec.chunk_locations,
        },
        ..rec
    }
}

/// A record with the locations that the chunk map holds, where it has an entry for the file.
pub fn with_map_locations(metadata: FileMetadata, held: Option<Vec<ChunkLocation>>) -> (r:
    FileMetadata)
    ensures
        r@ == (FileRec {
            chunk_locations: match held {
                Some(h) => locs(h@),
                None => metadata@.chunk_locations,
            },
            ..metadata@
        }),
        r@ == with_held_locations(
            metadata@,
            match held {
                Some(h) => Some(locs(h@)),
                None => None,
            },
        ),
{
    let mut m: FileMetadata = metadata;
    match held {
        Some(h) => {
            m.chunk_locations = h;
        },
        None => {},
    }
    m
}

// ---------------------------------------------------------------------------
// Answering for a file.
// ---------------------------------------------------------------------------

/// A stored record as it is answered: with the locations and the write sequence of the chunk
/// map's entry, where that has locations and a higher sequence.
pub open spec fn current_record(rec: FileRec, held: Option<(Seq<Loc>, u64)>) -> FileRec {
    match held {
        Some(e) => if e.0.len() > 0 {
            FileRec {
                chunk_locations: e.0,
                write_seq: if e.1 > rec.write_seq {
                    e.1
                } else {
                    rec.write_seq
                },
                ..rec
            }
        } else {
            rec
        },
        None => rec,
    }
}

/// What a lookup by path came to.
#[derive(Debug)]
pub enum Lookup {
    Found(FileMetadata),
    Missing,
    Failed(String),
}

/// What to do about a request for a file's record.
#[derive(Debug)]
pub enum ByPath {
    Answer(Response),
    /// The leader may know the file: ask it, and fall back to `not_found` if it has no answer.
    AskLeader,
}

/// A client has the record already: it says which write sequence it has, and there is no higher
/// one.
pub open spec fn has_it_already(write_seq: u64, if_modified_since: Option<u64>) -> bool {
    if_modified_since is Some && write_seq <= if_modified_since->0
}

/// A request for an unknown file goes to the leader.
pub open spec fn goes_to_leader(is_leader: bool, leader_known: bool) -> bool {
    !is_leader && leader_known
}

/// Answers a request for a file's record. A client that says which write sequence it has gets
/// the record only if there is a higher one. A follower that does not know the file asks the
/// leader, if there is one.
pub fn get_file_metadata_by_path(
    lookup: Lookup,
    held: Option<(Vec<ChunkLocation>, u64)>,
    if_modified_since: Option<u64>,
    is_leader: bool,
    leader_known: bool,
) -> (r: ByPath)
    ensures
        match lookup {
            Lookup::Found(m) => {
                let rec = current_record(
                    m@,
                    match held {
                        Some(e) => Some((locs(e.0@), e.1)),
                        None => None,
                    },
                );
                r is Answer && if if_modified_since is Some && rec.write_seq
                    <= if_modified_since->0 {
                    r->Answer_0 == Response::NotModified
                } else {
                    match r->Answer_0 {
                        Response::FileMetadata { metadata } => metadata@ == rec,
                        _ => false,
                    }
                }
            },
            Lookup::Missing => if !is_leader && leader_known {
                r is AskLeader
            } else {
                r is Answer && r->Answer_0.refuses("File not found"@, ErrorCode::NotFound)
            },
            Lookup::Failed(why) => r is Answer && r->Answer_0.refuses(
                "Failed to get file metadata: "@ + why@,
                ErrorCode::InternalError,
            ),
        },
        r is AskLeader <==> lookup is Missing && goes_to_leader(is_leader, leader_known),
        lookup is Found ==> (r is Answer && r->Answer_0 is NotModified <==> has_it_already(
            current_record(
                lookup->Found_0@,
                match held {
                    Some(e) => Some((locs(e.0@), e.1)),
                    None => None,
                },
            ).write_seq,
            if_modified_since,
        )),
{
    match lookup {
        Lookup::Found(m) => {
            let mut m: FileMetadata = m;
            match held {
                Some(e) => {
                    if e.0.len() > 0 {
                        m.chunk_locations = e.0;
                        if e.1 > m.write_seq {
                            m.write_seq = e.1;
                        }
                    }
                },
                None => {},
            }
            match if_modified_since {
                Some(since) => {
                    if m.write_seq <= since {
                        return ByPath::Answer(Response::NotModified);
                    }
                },
                None => {},
            }
            ByPath::Answer(Response::FileMetadata { metadata: m })
        },
        Lookup::Missing => if !is_leader && leader_known {
            ByPath::AskLeader
        } else {
            ByPath::Answer(not_found())
        },
        Lookup::Failed(why) => ByPath::Answer(
            Response::refusal(
                join("Failed to get file metadata: ", why.as_str()),
                ErrorCode::InternalError,
            ),
        ),
    }
}

/// The refusal of a request for a file that nobody knows.
pub fn not_found() -> (r: Response)
    ensures
        r.refuses("File not found"@, ErrorCode::NotFound),
{
    Response::refusal("File not found".to_owned(), ErrorCode::NotFound)
}

/// The refusal of a request that failed below: what was attempted, and why it failed.
pub fn failed(attempt: &str, why: &str) -> (r: Response)
    ensures
        r.refuses(attempt@ + why@, ErrorCode::InternalError),
{
    Response::refusal(join(attempt, why), ErrorCode::InternalError)
}

/// The records of a listing carry no locations, which clients fetch when they open a file.
pub open spec fn bare(rec: FileRec) -> FileRec {
    FileRec { chunk_locations: Seq::empty(), ..rec }
}

/// Answers with every file there is, without their locations.
pub fn list_all_files(files: Vec<FileMetadata>) -> (r: Response)
    ensures
        match r {
            Response::FileList { files: out, total_count } => recs(out@) == recs(
                files@,
            ).map_values(|f: FileRec| bare(f)) && total_count == files@.len(),
            _ => false,
        },
{
    let total_count: usize = files.len();
    let ghost all = recs(files@);
    let ghost want = all.map_values(|f: FileRec| bare(f));
    let mut out: Vec<FileMetadata> = Vec::new();
    let mut i: usize = 0;
    while i < files.len()
        invariant
            i <= files@.len(),
            all == recs(files@),
            want == all.map_values(|f: FileRec| bare(f)),
            recs(out@) =~= want.take(i as int),
        decreases files@.len() - i,
    {
        let ghost before = recs(out@);
        assert(all[i as int] == files@[i as int]@);
        let mut f: FileMetadata = files[i].clone();
        f.chunk_locations = Vec::new();
        assert(locs(f.chunk_locations@) =~= Seq::<Loc>::empty());
        let ghost fv = f@;
        assert(fv == bare(all[i as int]));
        out.push(f);
        assert(recs(out@) =~= before.push(fv));
        i += 1;
    }
    assert(want.take(i as int) =~= want);
    Response::FileList { files: out, total_count }
}

// ---------------------------------------------------------------------------
// Renaming and deleting.
// ---------------------------------------------------------------------------

/// The record of a renamed file: a new path, and a write sequence that counts before every other
/// record of the file. Its modification time stays.
pub open spec fn renamed(rec: FileRec, new_path: Seq<char>) -> FileRec {
    FileRec {
        path: new_path,
        write_seq: if rec.write_seq < u64::MAX {
            (rec.write_seq + 1) as u64
        } else {
            u64::MAX
        },
        ..rec
    }
}

pub fn rename_file(metadata: FileMetadata, new_path: String) -> (r: FileMetadata)
    ensures
        r@ == renamed(metadata@, new_path@),
{
    let mut m: FileMetadata = metadata;
    m.path = new_path;
    m.write_seq = m.write_seq.saturating_add(1);
    m
}

/// A rename is never dropped as stale against the record it was made from, and renaming back
/// gives the file its old path.
pub proof fn rename_counts_before_its_source(rec: FileRec, new_path: Seq<char>)
    requires
        rec.write_seq < u64::MAX - 1,
    ensures
        renamed(rec, new_path).write_seq > rec.write_seq,
        renamed(rec, new_path).modified_at == rec.modified_at,
        renamed(rec, new_path).chunk_locations == rec.chunk_locations,
        renamed(renamed(rec, new_path), rec.path).path == rec.path,
{
}

/// The identities of the chunks of a list of locations, in order.
pub open spec fn chunk_ids_of(list: Seq<Loc>) -> Seq<ChunkId> {
    list.map_values(|l: Loc| l.chunk_id)
}

pub fn chunk_ids(list: &Vec<ChunkLocation>) -> (r: Vec<ChunkId>)
    ensures
        r@ == chunk_ids_of(locs(list@)),
{
    let mut out: Vec<ChunkId> = Vec::new();
    let mut i: usize = 0;
    while i < list.len()
        invariant
            i <= list@.len(),
            out@ =~= chunk_ids_of(locs(list@)).take(i as int),
        decreases list@.len() - i,
    {
        assert(locs(list@)[i as int] == list@[i as int]@);
        out.push(list[i].chunk_id);
        i += 1;
    }
    assert(chunk_ids_of(locs(list@)).take(i as int) =~= chunk_ids_of(locs(list@)));
    out
}

/// The entry that a deleted file leaves in the delete queue. It is stored before anything of the
/// file is removed, so that no chunk is lost track of.
pub fn delete_entry(metadata: &FileMetadata, path: String) -> (r: DeleteQueueEntry)
    ensures
        r.file_id == metadata@.id,
        r.path@ == path@,
        r.chunk_ids@ == chunk_ids_of(metadata@.chunk_locations),
{
    DeleteQueueEntry { file_id: metadata.id, path, chunk_ids: chunk_ids(&metadata.chunk_locations) }
}

// ---------------------------------------------------------------------------
// Folding a batch of records.
// ---------------------------------------------------------------------------

/// `out` can come of merging the records of one file in order.
pub open spec fn merges_to<F: Fn(&FileMetadata, &FileMetadata) -> FileMetadata>(
    merge: F,
    items: Seq<FileMetadata>,
    out: FileRec,
) -> bool
    decreases items.len(),
{
    if items.len() == 0 {
        false
    } else if items.len() == 1 {
        out == items[0]@
    } else {
        exists|before: FileMetadata, after: FileMetadata|
            merges_to(merge, items.drop_last(), before@) && #[trigger] call_ensures(
                merge,
                (&before, &items.last()),
                after,
            ) && after@ == out
    }
}

/// The records of one file, in order.
pub open spec fn of_file(items: Seq<FileMetadata>, file: FileId) -> Seq<FileMetadata>
    decreases items.len(),
{
    if items.len() == 0 {
        items
    } else if items.last().id == file {
        of_file(items.drop_last(), file).push(items.last())
    } else {
        of_file(items.drop_last(), file)
    }
}

/// The files of a batch, in the order in which they first came up.
pub open spec fn first_files(items: Seq<FileMetadata>) -> Seq<FileId>
    decreases items.len(),
{
    if items.len() == 0 {
        Seq::empty()
    } else {
        let sofar = first_files(items.drop_last());
        if sofar.contains(items.last().id) {
            sofar
        } else {
            sofar.push(items.last().id)
        }
    }
}

/// Folds a batch: one record for each file, in the order in which the files first came up, made
/// by merging the file's records one after the other.
pub open spec fn is_fold<F: Fn(&FileMetadata, &FileMetadata) -> FileMetadata>(
    merge: F,
    items: Seq<FileMetadata>,
    out: Seq<FileMetadata>,
) -> bool {
    &&& out.len() == first_files(items).len()
    &&& forall|i: int|
        0 <= i < out.len() ==> merges_to(
            merge,
            of_file(items, first_files(items)[i]),
            (#[trigger] out[i])@,
        )
}

proof fn of_file_nonempty(items: Seq<FileMetadata>, file: FileId)
    ensures
        first_files(items).contains(file) <==> of_file(items, file).len() > 0,
    decreases items.len(),
{
    if items.len() > 0 {
        let init = items.drop_last();
        of_file_nonempty(init, file);
        let f0 = first_files(init);
        let f = first_files(items);
        if f0.contains(file) {
            let k = choose|k: int| 0 <= k < f0.len() && f0[k] == file;
            assert(f[k] == file);
        }
        if items.last().id == file {
            if !f0.contains(file) {
                assert(f[f0.len() as int] == file);
            }
        } else if f.contains(file) {
            let k = choose|k: int| 0 <= k < f.len() && f[k] == file;
            assert(f0[k] == file);
        }
    }
}

pub(crate) proof fn first_files_differ(items: Seq<FileMetadata>)
    ensures
        forall|i: int, j: int|
            0 <= i < j < first_files(items).len() ==> first_files(items)[i] != first_files(
                items,
            )[j],
    decreases items.len(),
{
    if items.len() > 0 {
        first_files_differ(items.drop_last());
        let f0 = first_files(items.drop_last());
        let f = first_files(items);
        assert forall|i: int, j: int| 0 <= i < j < f.len() implies f[i] != f[j] by {
            if j == f0.len() {
                assert(f0.contains(f0[i]));
            } else {
                assert(f0[i] != f0[j]);
            }
        }
    }
}

/// What a store holds of a file after taking in records one by one: the first is stored where
/// nothing is held, and every other is merged into what is.
pub open spec fn stored_one_by_one(
    m: spec_fn(FileRec, FileRec) -> FileRec,
    held: Option<FileRec>,
    records: Seq<FileRec>,
) -> Option<FileRec>
    decreases records.len(),
{
    if records.len() == 0 {
        held
    } else {
        match stored_one_by_one(m, held, records.drop_last()) {
            Some(h) => Some(m(h, records.last())),
            None => Some(records.last()),
        }
    }
}

proof fn merged_is_stored<F: Fn(&FileMetadata, &FileMetadata) -> FileMetadata>(
    merge: F,
    m: spec_fn(FileRec, FileRec) -> FileRec,
    held: Option<FileRec>,
    items: Seq<FileMetadata>,
    out: FileRec,
)
    requires
        forall|a: FileMetadata, b: FileMetadata, r: FileMetadata| #[trigger]
            call_ensures(merge, (&a, &b), r) ==> r@ == m(a@, b@),
        forall|a: FileRec, b: FileRec, c: FileRec| #[trigger] m(m(a, b), c) == m(a, m(b, c)),
        merges_to(merge, items, out),
    ensures
        stored_one_by_one(m, held, recs(items)) == Some(
            match held {
                Some(h) => m(h, out),
                None => out,
            },
        ),
    decreases items.len(),
{
    let all = recs(items);
    let init = items.drop_last();
    assert(all.drop_last() =~= recs(init));
    assert(all.last() == items.last()@);
    if items.len() == 1 {
        assert(all.drop_last() =~= Seq::<FileRec>::empty());
        assert(stored_one_by_one(m, held, all.drop_last()) == held);
    } else {
        let (before, after) = choose|before: FileMetadata, after: FileMetadata|
            merges_to(merge, init, before@) && #[trigger] call_ensures(
                merge,
                (&before, &items.last()),
                after,
            ) && after@ == out;
        merged_is_stored(merge, m, held, init, before@);
        match held {
            Some(h) => {
                assert(m(m(h, before@), items.last()@) == m(h, m(before@, items.last()@)));
            },
            None => {},
        }
    }
}

/// Storing what a batch folds to leaves a file as storing its records one by one would, whatever
/// the store held of it before, wherever merging is a function of the two records and
/// associative.
pub proof fn folding_matches_storing_one_by_one<
    F: Fn(&FileMetadata, &FileMetadata) -> FileMetadata,
>(
    merge: F,
    m: spec_fn(FileRec, FileRec) -> FileRec,
    items: Seq<FileMetadata>,
    out: Seq<FileMetadata>,
    i: int,
    held: Option<FileRec>,
)
    requires
        forall|a: FileMetadata, b: FileMetadata, r: FileMetadata| #[trigger]
            call_ensures(merge, (&a, &b), r) ==> r@ == m(a@, b@),
        forall|a: FileRec, b: FileRec, c: FileRec| #[trigger] m(m(a, b), c) == m(a, m(b, c)),
        is_fold(merge, items, out),
        0 <= i < out.len(),
    ensures
        stored_one_by_one(m, held, seq![out[i]@]) == stored_one_by_one(
            m,
            held,
            recs(of_file(items, first_files(items)[i])),
        ),
{
    merged_is_stored(merge, m, held, of_file(items, first_files(items)[i]), out[i]@);
    assert(seq![out[i]@].drop_last() =~= Seq::<FileRec>::empty());
    assert(stored_one_by_one(m, held, seq![out[i]@].drop_last()) == held);
    assert(seq![out[i]@].last() == out[i]@);
}

/// Folds a batch of records into one for each file. `merge` makes one record out of two of one
/// file, the earlier first.
pub fn fold_metadata_batch<F: Fn(&FileMetadata, &FileMetadata) -> FileMetadata>(
    items: Vec<FileMetadata>,
    merge: F,
) -> (out: Vec<FileMetadata>)
    requires
        forall|a: FileMetadata, b: FileMetadata| call_requires(merge, (&a, &b)),
    ensures
        is_fold(merge, items@, out@),
{
    let mut out: Vec<FileMetadata> = Vec::new();
    let mut ids: Vec<FileId> = Vec::new();
    let mut i: usize = 0;
    let ghost all = items@;
    assert(all.take(0) =~= Seq::<FileMetadata>::empty());
    while i < items.len()
        invariant
            i <= items@.len(),
            all == items@,
            forall|a: FileMetadata, b: FileMetadata| call_requires(merge, (&a, &b)),
            ids@ == first_files(all.take(i as int)),
            is_fold(merge, all.take(i as int), out@),
        decreases items@.len() - i,
    {
        let ghost sofar = all.take(i as int);
        let ghost next = all.take(i + 1);
        let ghost before = out@;
        proof {
            assert(next.drop_last() =~= sofar);
            assert(next.last() == items@[i as int]);
            first_files_differ(sofar);
        }
        let id: FileId = items[i].id;
        let mut p: usize = 0;
        while p < ids.len() && ids[p] != id
            invariant
                p <= ids@.len(),
                forall|j: int| 0 <= j < p ==> ids@[j] != id,
            decreases ids@.len() - p,
        {
            p += 1;
        }
        if p < ids.len() {
            assert(ids@[p as int] == id);
            let merged: FileMetadata = merge(&out[p], &items[i]);
            out.set(p, merged);
            proof {
                assert(first_files(next) == first_files(sofar));
                assert forall|j: int| 0 <= j < out@.len() implies merges_to(
                    merge,
                    of_file(next, first_files(next)[j]),
                    (#[trigger] out@[j])@,
                ) by {
                    let f = first_files(next)[j];
                    assert(merges_to(merge, of_file(sofar, f), before[j]@));
                    if j == p {
                        let of = of_file(next, f);
                        assert(of.drop_last() =~= of_file(sofar, f));
                        assert(of.last() == items@[i as int]);
                        of_file_nonempty(sofar, f);
                        assert(sofar.len() >= 0);
                        assert(merges_to(merge, of.drop_last(), before[j]@));
                        assert(call_ensures(merge, (&before[j], &of.last()), merged));
                    } else {
                        assert(first_files(sofar)[j] != first_files(sofar)[p as int]);
                        assert(of_file(next, f) == of_file(sofar, f));
                    }
                }
            }
        } else {
            let item: FileMetadata = items[i].clone();
            let ghost iv = item@;
            out.push(item);
            ids.push(id);
            proof {
                assert(!first_files(sofar).contains(id)) by {
                    if first_files(sofar).contains(id) {
                        let k = choose|k: int|
                            0 <= k < first_files(sofar).len() && first_files(sofar)[k] == id;
                        assert(ids@[k] == id);
                    }
                }
                assert(first_files(next) == first_files(sofar).push(id));
                of_file_nonempty(sofar, id);
                assert forall|j: int| 0 <= j < out@.len() implies merges_to(
                    merge,
                    of_file(next, first_files(next)[j]),
                    (#[trigger] out@[j])@,
                ) by {
                    let f = first_files(next)[j];
                    if j < before.len() {
                        assert(f == first_files(sofar)[j]);
                        assert(merges_to(merge, of_file(sofar, f), before[j]@));
                        assert(f != id);
                        assert(of_file(next, f) == of_file(sofar, f));
                    } else {
                        let of = of_file(next, id);
                        assert(of.len() == 1);
                        assert(of[0] == items@[i as int]);
                    }
                }
            }
        }
        i += 1;
    }
    assert(all.take(i as int) =~= all);
    out
}

} // verus!
