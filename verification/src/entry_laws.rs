//! What a file's entry in the chunk map holds after reports, records and patches, place by place.
use vstd::prelude::*;

use crate::chunk_map::{
    all_weighed, claimed, claimed_chunks_are_owned, files_patched, filled_up, first_naming, first_naming_is_first, moved_on,
    owner_placed_at, patched_place, placed_at, rebuilt_entry, record_is_stale,
    record_taken, released_chunks_are_free, report_taken, reported_for_any, reported_for_file, updated_in, weighed,
    with_place, Chunks, FileEntry,
};
use crate::chunk_map_laws::patch_moves_one_location;
use crate::loc_list::{holds_at, offset_sorted, offset_sorted_is_sorted, parts_at};
use crate::record_laws::{filled_up_members, sorted_has_the_same, with_place_members};
use crate::types::{ChunkId, FileRec, Loc};

verus! {

/// Sorted locations lie in the order of their offsets, those without one behind all others; none
/// is lost, added or changed.
pub proof fn sorted_locations_lie_in_order(list: Seq<Loc>, i: int, j: int)
    ensures
        0 <= i < j < offset_sorted(list).len() && offset_sorted(list)[j].file_offset is Some
            && offset_sorted(list)[j].file_offset->0 < u64::MAX ==> offset_sorted(
            list,
        )[i].file_offset is Some && offset_sorted(list)[i].file_offset->0 <= offset_sorted(
            list,
        )[j].file_offset->0,
        offset_sorted(list).to_multiset() == list.to_multiset(),
{
    offset_sorted_is_sorted(list);
    if 0 <= i < j < offset_sorted(list).len() {
        assert(offset_sorted(list)[i].order_key() <= offset_sorted(list)[j].order_key());
    }
}

proof fn the_parting_place(list: Seq<Loc>, slot: u64, p: int, j: int)
    requires
        slot < u64::MAX,
        forall|m: int, n: int|
            0 <= m < n < list.len() && (#[trigger] list[n]).file_offset is Some ==> (
            #[trigger] list[m]).file_offset is Some && list[m].file_offset->0 / 4194304
                <= list[n].file_offset->0 / 4194304,
        parts_at(list, slot, p),
        0 <= j <= list.len(),
        forall|m: int|
            0 <= m < j ==> (#[trigger] list[m]).file_offset is Some && list[m].file_offset->0
                / 4194304 < slot,
        j < list.len() ==> list[j].file_offset is None || list[j].file_offset->0 / 4194304 >= slot,
    ensures
        p == j,
{
    if p < j {
        assert(list[p].slot_key() >= slot);
        assert(list[p].file_offset->0 / 4194304 < slot);
    }
    if p > j {
        assert(list[p - 1].slot_key() < slot);
        if p - 1 > j {
            assert(list[p - 1].file_offset is Some);
            assert(list[j].file_offset is Some);
            assert(list[j].file_offset->0 / 4194304 <= list[p - 1].file_offset->0 / 4194304);
        }
    }
}

/// A report on a place of a file, taken into the chunk map, meets the location at `j`, the first
/// of the entry that is of the same chunk of four mebibytes or behind it. One of the same takes
/// the report just where that names the same chunk or does not come from an earlier write: by
/// client write sequence where either side has one, one with a sequence counting before one
/// without, and by time where neither has. Otherwise the report is put in before it. Nothing
/// else in the entry changes, and the report's chunk is the file's wherever it was taken in.
pub proof fn the_map_keeps_the_later_write(
    before: Seq<Loc>,
    owner_before: Map<[u8; 32], u128>,
    report: Loc,
    file: u128,
    after: Seq<Loc>,
    owner_after: Map<[u8; 32], u128>,
    j: int,
)
    requires
        report.file_offset is Some,
        report_taken(before, owner_before, report, file, after, owner_after),
        forall|m: int, n: int|
            0 <= m < n < before.len() && (#[trigger] before[n]).file_offset is Some ==> (
            #[trigger] before[m]).file_offset is Some && before[m].file_offset->0 / 4194304
                <= before[n].file_offset->0 / 4194304,
        0 <= j <= before.len(),
        forall|m: int|
            0 <= m < j ==> (#[trigger] before[m]).file_offset is Some && before[m].file_offset->0
                / 4194304 < report.file_offset->0 / 4194304,
        j < before.len() ==> before[j].file_offset is None || before[j].file_offset->0 / 4194304
            >= report.file_offset->0 / 4194304,
    ensures
        j == before.len() || before[j].file_offset is None || before[j].file_offset->0 / 4194304
            > report.file_offset->0 / 4194304 ==> after == before.insert(j, report) && owner_after
            == owner_before.insert(report.chunk_id.hash, file),
        j < before.len() && before[j].file_offset is Some && before[j].file_offset->0 / 4194304
            == report.file_offset->0 / 4194304 ==> {
            let held = before[j];
            let t = match report.written_at {
                Some(t) => t,
                None => 0,
            };
            let h = match held.written_at {
                Some(h) => h,
                None => 0,
            };
            &&& held.chunk_id == report.chunk_id ==> after == before.update(j, report)
            &&& held.chunk_id != report.chunk_id && report.client_write_seq is Some
                && held.client_write_seq is Some && report.client_write_seq->0
                >= held.client_write_seq->0 ==> after == before.update(j, report)
            &&& held.chunk_id != report.chunk_id && report.client_write_seq is Some
                && held.client_write_seq is Some && report.client_write_seq->0
                < held.client_write_seq->0 ==> after == before && owner_after == owner_before
            &&& held.chunk_id != report.chunk_id && report.client_write_seq is Some
                && held.client_write_seq is None ==> after == before.update(j, report)
            &&& held.chunk_id != report.chunk_id && report.client_write_seq is None
                && held.client_write_seq is Some ==> after == before && owner_after
                == owner_before
            &&& held.chunk_id != report.chunk_id && report.client_write_seq is None
                && held.client_write_seq is None && t >= h ==> after == before.update(j, report)
            &&& held.chunk_id != report.chunk_id && report.client_write_seq is None
                && held.client_write_seq is None && t < h ==> after == before && owner_after
                == owner_before
            &&& after[j] == report && held != report ==> owner_after.dom().contains(
                report.chunk_id.hash,
            ) && owner_after[report.chunk_id.hash] == file && (held.chunk_id.hash
                != report.chunk_id.hash ==> !owner_after.dom().contains(held.chunk_id.hash))
        },
        forall|h: [u8; 32]|
            h != report.chunk_id.hash && (j < before.len() ==> h != before[j].chunk_id.hash) ==> (
            #[trigger] owner_after.dom().contains(h) <==> owner_before.dom().contains(h))
                && owner_after[h] == owner_before[h],
{
    let slot = report.slot()->0;
    let p = choose|p: int|
        #![trigger parts_at(before, slot, p)]
        parts_at(before, slot, p) && after == placed_at(before, report, slot, p) && owner_after
            == owner_placed_at(owner_before, before, report, slot, p, file);
    assert(slot < u64::MAX);
    the_parting_place(before, slot, p, j);
    assert(holds_at(before, slot, p) <==> j < before.len() && before[j].file_offset is Some
        && before[j].file_offset->0 / 4194304 == report.file_offset->0 / 4194304);
}

/// A report that does not say where its chunk lies replaces the first location of that chunk, and
/// is added at the end where there is none.
pub proof fn an_unplaced_report_goes_by_its_chunk(
    before: Seq<Loc>,
    owner_before: Map<[u8; 32], u128>,
    report: Loc,
    file: u128,
    after: Seq<Loc>,
    owner_after: Map<[u8; 32], u128>,
    j: int,
)
    requires
        report.file_offset is None,
        report_taken(before, owner_before, report, file, after, owner_after),
        0 <= j <= before.len(),
        forall|m: int| 0 <= m < j ==> (#[trigger] before[m]).chunk_id != report.chunk_id,
        j < before.len() ==> before[j].chunk_id == report.chunk_id,
    ensures
        j < before.len() ==> after == before.update(j, report),
        j == before.len() ==> after == before.push(report),
        owner_after == owner_before.insert(report.chunk_id.hash, file),
{
    first_naming_is_first(before, report.chunk_id);
    match first_naming(before, report.chunk_id) {
        Some(i) => {
            if i < j {
                assert(before[i].chunk_id == report.chunk_id);
            }
            if j < i {
                assert(before[j].chunk_id == report.chunk_id);
            }
        },
        None => {
            if j < before.len() {
                assert(before[j].chunk_id == report.chunk_id);
            }
        },
    }
}

/// A report on a file changes that file's entry alone, and not its write sequence. A file without
/// an entry gets one with the report alone, at the report's client write sequence, or none.
pub proof fn a_report_changes_one_entry(before: Chunks, file: u128, report: Loc, after: Chunks)
    requires
        reported_for_file(before, file, report, after),
    ensures
        after.files.dom() == before.files.dom().insert(file),
        forall|f: u128|
            f != file && #[trigger] before.files.dom().contains(f) ==> after.files[f]
                == before.files[f],
        before.files.dom().contains(file) ==> after.files[file].1 == before.files[file].1,
        before.files.dom().contains(file) ==> report_taken(
            before.files[file].0,
            before.owner,
            report,
            file,
            after.files[file].0,
            after.owner,
        ),
        !before.files.dom().contains(file) ==> after.files[file].0 == seq![report]
            && after.files[file].1 == (match report.client_write_seq {
            Some(seq) => seq,
            None => 0,
        }) && after.owner == before.owner.insert(report.chunk_id.hash, file),
{
    if !before.files.dom().contains(file) {
        let none = Seq::<Loc>::empty();
        if report.file_offset is Some {
            let slot = report.slot()->0;
            let p = choose|p: int|
                #![trigger parts_at(none, slot, p)]
                parts_at(none, slot, p) && after.files[file].0 == placed_at(none, report, slot, p)
                    && after.owner == owner_placed_at(before.owner, none, report, slot, p, file);
            assert(none.insert(0, report) =~= seq![report]);
        } else {
            assert(none.push(report) =~= seq![report]);
        }
    }
    assert(after.files.dom() =~= before.files.dom().insert(file));
}

/// A report on a chunk of an unknown file changes nothing where no file names the chunk. Where
/// some file does, it takes the place of a location that named the chunk, in one entry, and
/// nothing else changes but that the chunk is recorded as that file's.
pub proof fn a_report_on_any_file_changes_one_place(before: Chunks, report: Loc, after: Chunks)
    requires
        reported_for_any(before, report, after),
    ensures
        (forall|f: u128, i: int|
            before.files.dom().contains(f) && 0 <= i < before.files[f].0.len() ==> (
            #[trigger] before.files[f].0[i]).chunk_id != report.chunk_id) ==> after == before,
        after == before || exists|f: u128, i: int|
            {
                &&& before.files.dom().contains(f)
                &&& 0 <= i < before.files[f].0.len()
                &&& (#[trigger] before.files[f].0[i]).chunk_id == report.chunk_id
                &&& forall|m: int|
                    0 <= m < i ==> (#[trigger] before.files[f].0[m]).chunk_id != report.chunk_id
                &&& after.files == before.files.insert(
                    f,
                    (before.files[f].0.update(i, report), before.files[f].1),
                )
                &&& after.owner == before.owner.insert(report.chunk_id.hash, f)
            },
        (exists|f: u128, i: int|
            before.files.dom().contains(f) && 0 <= i < before.files[f].0.len() && (
            #[trigger] before.files[f].0[i]).chunk_id == report.chunk_id)
            ==> after.owner.dom().contains(report.chunk_id.hash) && {
            let f = after.owner[report.chunk_id.hash];
            after.files.dom().contains(f) && after.files[f].0.contains(report)
        },
{
    if crate::chunk_map::named_by_some(before.files, report.chunk_id) {
        let f = choose|f: u128| #[trigger] updated_in(before, report, after, f);
        first_naming_is_first(before.files[f].0, report.chunk_id);
        let i = first_naming(before.files[f].0, report.chunk_id)->0;
        assert(before.files[f].0[i].chunk_id == report.chunk_id);
        assert(after.files[f].0[i] == report);
    } else {
        if exists|f: u128, i: int|
            before.files.dom().contains(f) && 0 <= i < before.files[f].0.len() && (
            #[trigger] before.files[f].0[i]).chunk_id == report.chunk_id {
            let (f, i) = choose|f: u128, i: int|
                before.files.dom().contains(f) && 0 <= i < before.files[f].0.len() && (
                #[trigger] before.files[f].0[i]).chunk_id == report.chunk_id;
            first_naming_is_first(before.files[f].0, report.chunk_id);
            assert(first_naming(before.files[f].0, report.chunk_id) is Some);
        }
    }
}

// ---------------------------------------------------------------------------
// Whole-file records.
// ---------------------------------------------------------------------------

/// A whole-file record, taken into the chunk map, meets at each of its places `i` the location at
/// `j`, the first of the held entry that is of the same chunk of four mebibytes. Of the two the
/// entry holds the record's afterwards where both name one chunk. Otherwise the higher client
/// write sequence counts, one with a sequence before one without, the record's where they are
/// even. Where neither has a sequence, the later time counts, the record's where they are even;
/// and where the record's has no time, it counts just if its chunk is on disk.
pub proof fn a_record_gives_way_to_later_writes(
    before: Chunks,
    rec: FileRec,
    on_disk: Seq<bool>,
    after: Chunks,
    i: int,
    j: int,
)
    requires
        record_taken(before, rec, on_disk, after),
        before.files.dom().contains(rec.id.id),
        0 <= i < rec.chunk_locations.len(),
        on_disk.len() == rec.chunk_locations.len(),
        rec.chunk_locations[i].file_offset is Some,
        0 <= j < before.files[rec.id.id].0.len(),
        forall|m: int, n: int|
            0 <= m < n < before.files[rec.id.id].0.len() && (
            #[trigger] before.files[rec.id.id].0[n]).file_offset is Some ==> (
            #[trigger] before.files[rec.id.id].0[m]).file_offset is Some
                && before.files[rec.id.id].0[m].file_offset->0 / 4194304
                <= before.files[rec.id.id].0[n].file_offset->0 / 4194304,
        forall|m: int|
            0 <= m < j ==> (#[trigger] before.files[rec.id.id].0[m]).file_offset is Some
                && before.files[rec.id.id].0[m].file_offset->0 / 4194304
                < rec.chunk_locations[i].file_offset->0 / 4194304,
        before.files[rec.id.id].0[j].file_offset is Some,
        before.files[rec.id.id].0[j].file_offset->0 / 4194304
            == rec.chunk_locations[i].file_offset->0 / 4194304,
    ensures
        after.files.dom().contains(rec.id.id),
        ({
            let theirs = rec.chunk_locations[i];
            let ours = before.files[rec.id.id].0[j];
            let out = after.files[rec.id.id].0;
            &&& theirs.chunk_id == ours.chunk_id ==> out.contains(theirs)
            &&& theirs.chunk_id != ours.chunk_id && theirs.client_write_seq is Some
                && ours.client_write_seq is Some && theirs.client_write_seq->0
                >= ours.client_write_seq->0 ==> out.contains(theirs)
            &&& theirs.chunk_id != ours.chunk_id && theirs.client_write_seq is Some
                && ours.client_write_seq is Some && theirs.client_write_seq->0
                < ours.client_write_seq->0 ==> out.contains(ours)
            &&& theirs.chunk_id != ours.chunk_id && theirs.client_write_seq is Some
                && ours.client_write_seq is None ==> out.contains(theirs)
            &&& theirs.chunk_id != ours.chunk_id && theirs.client_write_seq is None
                && ours.client_write_seq is Some ==> out.contains(ours)
            &&& theirs.chunk_id != ours.chunk_id && theirs.client_write_seq is None
                && ours.client_write_seq is None && theirs.written_at is Some && (ours.written_at
                is None || ours.written_at->0 <= theirs.written_at->0) ==> out.contains(theirs)
            &&& theirs.chunk_id != ours.chunk_id && theirs.client_write_seq is None
                && ours.client_write_seq is None && theirs.written_at is Some && ours.written_at
                is Some && ours.written_at->0 > theirs.written_at->0 ==> out.contains(ours)
            &&& theirs.chunk_id != ours.chunk_id && theirs.client_write_seq is None
                && ours.client_write_seq is None && theirs.written_at is None && on_disk[i]
                ==> out.contains(theirs)
            &&& theirs.chunk_id != ours.chunk_id && theirs.client_write_seq is None
                && ours.client_write_seq is None && theirs.written_at is None && !on_disk[i]
                ==> out.contains(ours)
        }),
{
    let file = rec.id.id;
    let held = before.files[file].0;
    let incoming = rec.chunk_locations;
    let middle = choose|middle: Seq<Loc>|
        #![trigger all_weighed(before.files, file, rec.chunk_locations, on_disk, middle)]
        all_weighed(before.files, file, rec.chunk_locations, on_disk, middle) && after.files
            == before.files.insert(file, (with_place(middle), rec.write_seq)) && after.owner
            == claimed(before.owner, with_place(middle), file);
    assert(weighed(held, incoming[i], on_disk[i], middle[i]));
    let slot = incoming[i].slot()->0;
    assert(slot < u64::MAX);
    let p = choose|p: int|
        #![trigger parts_at(held, slot, p)]
        parts_at(held, slot, p) && middle[i] == (if holds_at(held, slot, p) && record_is_stale(
            held[p],
            incoming[i],
            on_disk[i],
        ) {
            held[p]
        } else {
            incoming[i]
        });
    the_parting_place(held, slot, p, j);
    assert(middle.contains(middle[i]));
    with_place_members(middle, middle[i]);
}

/// A whole-file record with locations makes up the file's entry alone: all that the entry holds
/// afterwards has a place and stems from the record or from what was held, and each location of
/// the record whose slot was not held is in it. The entry's chunks are the file's, and its write
/// sequence is the record's. No other file changes.
pub proof fn a_record_makes_up_the_entry(
    before: Chunks,
    rec: FileRec,
    on_disk: Seq<bool>,
    after: Chunks,
    l: Loc,
)
    requires
        record_taken(before, rec, on_disk, after),
        on_disk.len() == rec.chunk_locations.len(),
        rec.chunk_locations.len() > 0,
    ensures
        after.files.dom() == before.files.dom().insert(rec.id.id),
        forall|f: u128|
            f != rec.id.id && #[trigger] before.files.dom().contains(f) ==> after.files[f]
                == before.files[f],
        after.files[rec.id.id].1 == rec.write_seq,
        after.files[rec.id.id].0.contains(l) ==> l.file_offset is Some && (
        rec.chunk_locations.contains(l) || (before.files.dom().contains(rec.id.id)
            && before.files[rec.id.id].0.contains(l))) && after.owner.dom().contains(
            l.chunk_id.hash,
        ) && after.owner[l.chunk_id.hash] == rec.id.id,
        rec.chunk_locations.contains(l) && l.file_offset is Some && (before.files.dom().contains(
            rec.id.id,
        ) ==> forall|m: int|
            0 <= m < before.files[rec.id.id].0.len() && (
            #[trigger] before.files[rec.id.id].0[m]).file_offset is Some
                ==> before.files[rec.id.id].0[m].file_offset->0 / 4194304 != l.file_offset->0
                / 4194304) ==> after.files[rec.id.id].0.contains(l),
{
    let file = rec.id.id;
    let incoming = rec.chunk_locations;
    let middle = choose|middle: Seq<Loc>|
        #![trigger all_weighed(before.files, file, rec.chunk_locations, on_disk, middle)]
        all_weighed(before.files, file, rec.chunk_locations, on_disk, middle) && after.files
            == before.files.insert(file, (with_place(middle), rec.write_seq)) && after.owner
            == claimed(before.owner, with_place(middle), file);
    assert(after.files.dom() =~= before.files.dom().insert(file));
    with_place_members(middle, l);
    let out = with_place(middle);
    if out.contains(l) {
        let k = choose|k: int| 0 <= k < middle.len() && middle[k] == l;
        if before.files.dom().contains(file) {
            let held = before.files[file].0;
            assert(weighed(held, incoming[k], on_disk[k], middle[k]));
            if middle[k] == incoming[k] {
                assert(incoming.contains(incoming[k]));
            } else {
                let slot = incoming[k].slot()->0;
                let p = choose|p: int|
                    #![trigger parts_at(held, slot, p)]
                    parts_at(held, slot, p) && middle[k] == (if holds_at(held, slot, p)
                        && record_is_stale(held[p], incoming[k], on_disk[k]) {
                        held[p]
                    } else {
                        incoming[k]
                    });
                assert(held.contains(held[p]));
            }
        }
        let k = choose|k: int| 0 <= k < out.len() && out[k] == l;
        claimed_chunks_are_owned(before.owner, out, file, l.chunk_id.hash);
        assert(out[k].chunk_id.hash == l.chunk_id.hash);
    }
    if incoming.contains(l) && l.file_offset is Some {
        let k = choose|k: int| 0 <= k < incoming.len() && incoming[k] == l;
        if before.files.dom().contains(file) {
            let held = before.files[file].0;
            assert(weighed(held, incoming[k], on_disk[k], middle[k]));
            if middle[k] != incoming[k] {
                let slot = incoming[k].slot()->0;
                let p = choose|p: int|
                    #![trigger parts_at(held, slot, p)]
                    parts_at(held, slot, p) && middle[k] == (if holds_at(held, slot, p)
                        && record_is_stale(held[p], incoming[k], on_disk[k]) {
                        held[p]
                    } else {
                        incoming[k]
                    });
                assert(slot < u64::MAX);
                assert(held[p].file_offset is Some);
                assert(held[p].file_offset->0 / 4194304 == l.file_offset->0 / 4194304);
            } else {
                assert(middle.contains(middle[k]));
            }
        } else {
            assert(middle.contains(middle[k]));
        }
    }
}

/// A record without locations empties the entry of a file of size zero, whose chunks are then
/// nobody's, and changes nothing otherwise.
pub proof fn a_bare_record_empties_just_an_empty_file(
    before: Chunks,
    rec: FileRec,
    on_disk: Seq<bool>,
    after: Chunks,
)
    requires
        record_taken(before, rec, on_disk, after),
        rec.chunk_locations.len() == 0,
    ensures
        rec.size > 0 || !before.files.dom().contains(rec.id.id) ==> after == before,
        rec.size == 0 && before.files.dom().contains(rec.id.id) ==> {
            &&& after.files.dom() == before.files.dom()
            &&& after.files[rec.id.id].0.len() == 0
            &&& after.files[rec.id.id].1 == rec.write_seq
            &&& forall|f: u128|
                f != rec.id.id && #[trigger] before.files.dom().contains(f) ==> after.files[f]
                    == before.files[f]
            &&& forall|i: int|
                0 <= i < before.files[rec.id.id].0.len() ==> !after.owner.dom().contains(
                    (#[trigger] before.files[rec.id.id].0[i]).chunk_id.hash,
                )
        },
{
    if rec.size == 0 && before.files.dom().contains(rec.id.id) {
        assert(after.files.dom() =~= before.files.dom());
        let list = before.files[rec.id.id].0;
        assert forall|i: int| 0 <= i < list.len() implies !after.owner.dom().contains(
            (#[trigger] list[i]).chunk_id.hash,
        ) by {
            released_chunks_are_free(before.owner, list, list[i].chunk_id.hash);
        }
    }
}

/// Building the map up from a stored record keeps every location that the map holds, and adds of
/// the record's just those whose chunk of four mebibytes the map holds nothing of, and those
/// without a place. The higher write sequence stays.
pub proof fn rebuilding_adds_just_what_is_missing(
    files: Map<u128, FileEntry>,
    rec: FileRec,
    l: Loc,
)
    ensures
        rebuilt_entry(files, rec).0.contains(l) ==> rec.chunk_locations.contains(l) || (
        files.dom().contains(rec.id.id) && files[rec.id.id].0.contains(l)),
        !files.dom().contains(rec.id.id) ==> (rebuilt_entry(files, rec).0.contains(l)
            <==> rec.chunk_locations.contains(l)) && rebuilt_entry(files, rec).1 == rec.write_seq,
        files.dom().contains(rec.id.id) ==> {
            let held = files[rec.id.id];
            &&& held.0.contains(l) ==> rebuilt_entry(files, rec).0.contains(l)
            &&& !held.0.contains(l) && l.file_offset is Some && rebuilt_entry(files, rec).0.contains(
                l,
            ) ==> forall|m: int|
                0 <= m < held.0.len() && (#[trigger] held.0[m]).file_offset is Some
                    ==> held.0[m].file_offset->0 / 4194304 != l.file_offset->0 / 4194304
            &&& held.1 >= rec.write_seq ==> rebuilt_entry(files, rec).1 == held.1
            &&& held.1 < rec.write_seq ==> rebuilt_entry(files, rec).1 == rec.write_seq
        },
{
    let sorted = offset_sorted(rec.chunk_locations);
    sorted_has_the_same(rec.chunk_locations, l);
    if files.dom().contains(rec.id.id) {
        let held = files[rec.id.id].0;
        let all = filled_up(held, sorted);
        sorted_has_the_same(all, l);
        filled_up_members(held, sorted);
        if held.contains(l) {
            let k = choose|k: int| 0 <= k < held.len() && held[k] == l;
            assert(all[k] == l);
        }
        if all.contains(l) {
            let k = choose|k: int| 0 <= k < all.len() && all[k] == l;
            if k < held.len() {
                assert(held[k] == l);
            } else {
                assert(sorted.contains(all[k]));
                if l.file_offset is Some {
                    assert forall|m: int|
                        0 <= m < held.len() && (#[trigger] held[m]).file_offset is Some implies
                        held[m].file_offset->0 / 4194304 != l.file_offset->0 / 4194304 by {
                        assert(all[m] == held[m]);
                        assert(all[m].slot() != all[k].slot());
                    }
                }
            }
        }
    }
}

proof fn patched_place_is_first(list: Seq<Loc>, slot: Option<u64>, old_chunk: ChunkId)
    ensures
        patched_place(list, slot, old_chunk) is Some ==> {
            let i = patched_place(list, slot, old_chunk)->0;
            0 <= i < list.len() && forall|m: int|
                0 <= m < i && (#[trigger] list[m]).chunk_id == old_chunk ==> slot is Some
                    && list[m].slot() != slot
        },
    decreases list.len(),
{
    if list.len() > 0 {
        let init = list.drop_last();
        patched_place_is_first(init, slot, old_chunk);
        patch_moves_one_location(init, slot, old_chunk, old_chunk, 0, 0);
        assert forall|m: int| 0 <= m < init.len() implies init[m] == list[m] by {}
        if patched_place(list, slot, old_chunk) is Some {
            let i = patched_place(list, slot, old_chunk)->0;
            assert forall|m: int|
                0 <= m < i && (#[trigger] list[m]).chunk_id == old_chunk implies slot is Some
                && list[m].slot() != slot by {
                assert(init[m].chunk_id == old_chunk);
            }
        }
    }
}

/// A patch gives the location at `j`, the first of the file's entry that names the old chunk and,
/// where a slot is given, lies in it, the new chunk, its hash as checksum, its size and its time,
/// and changes nothing else of the map. Where there is no such location nothing changes.
pub proof fn a_patch_moves_one_place_on(
    files: Map<u128, FileEntry>,
    file: u128,
    slot: Option<u64>,
    old_chunk: ChunkId,
    new_chunk: ChunkId,
    size: usize,
    written_at_ms: u64,
    j: int,
)
    requires
        files.dom().contains(file),
        old_chunk != new_chunk,
        0 <= j <= files[file].0.len(),
        forall|m: int|
            0 <= m < j && (#[trigger] files[file].0[m]).chunk_id == old_chunk ==> slot is Some && (
            files[file].0[m].file_offset is None || files[file].0[m].file_offset->0 / 4194304
                != slot->0),
        j < files[file].0.len() ==> files[file].0[j].chunk_id == old_chunk && (slot is Some
            ==> files[file].0[j].file_offset is Some && files[file].0[j].file_offset->0 / 4194304
            == slot->0),
    ensures
        ({
            let out = files_patched(
                files,
                file,
                slot,
                old_chunk,
                new_chunk,
                size,
                written_at_ms,
            );
            &&& j == files[file].0.len() ==> out == files
            &&& j < files[file].0.len() ==> {
                let l = out[file].0[j];
                &&& out.dom() =~= files.dom()
                &&& out == files.insert(file, (files[file].0.update(j, l), files[file].1))
                &&& l.chunk_id == new_chunk
                &&& l.checksum == new_chunk.hash
                &&& l.size == size
                &&& l.written_at == Some(written_at_ms)
                &&& l.nodes == files[file].0[j].nodes
                &&& l.file_offset == files[file].0[j].file_offset
                &&& l.client_write_seq == files[file].0[j].client_write_seq
                &&& l.file_id == files[file].0[j].file_id
            }
        }),
{
    let list = files[file].0;
    patch_moves_one_location(list, slot, old_chunk, new_chunk, size, written_at_ms);
    patched_place_is_first(list, slot, old_chunk);
    match patched_place(list, slot, old_chunk) {
        Some(i) => {
            if i < j {
                assert(list[i].chunk_id == old_chunk);
            }
            if j < i {
                assert(list[j].chunk_id == old_chunk);
            }
            let out = files_patched(files, file, slot, old_chunk, new_chunk, size, written_at_ms);
            assert(out[file].0[j] == moved_on(list[j], new_chunk, size, written_at_ms));
            assert(list.update(j, out[file].0[j]) =~= out[file].0);
        },
        None => {
            if j < list.len() {
                assert(list[j].chunk_id == old_chunk);
            }
        },
    }
}

/// A patch that leaves the content's identity as it was, or is of a file without an entry,
/// changes nothing.
pub proof fn a_patch_without_effect_moves_nothing(
    files: Map<u128, FileEntry>,
    file: u128,
    slot: Option<u64>,
    old_chunk: ChunkId,
    new_chunk: ChunkId,
    size: usize,
    written_at_ms: u64,
)
    requires
        old_chunk == new_chunk || !files.dom().contains(file),
    ensures
        files_patched(files, file, slot, old_chunk, new_chunk, size, written_at_ms) == files,
{
}

} // verus!
