//! What holds of the chunk map over any sequence of updates.
use crate::chunk_map::{
    all_weighed, filled_up, moved_on, owner_placed_at, patched_place, placed_at, rebuilt_entry,
    report_taken, report_wins, weighed, with_place, FileEntry,
};
use crate::loc_list::{
    by_slot, fills, first_filling, first_filling_is_first, holds_at, offset_sorted,
    offset_sorted_is_sorted, offsets_below_max, one_per_slot, parting_place_is_unique, parts_at,
};
use crate::types::{ChunkId, FileRec, Loc};
use vstd::prelude::*;

verus! {

/// A report with a place keeps an ordered entry ordered, and every slot filled at most once if it
/// was so before; it empties no slot, and its own slot is filled afterwards.
pub proof fn report_keeps_entry_in_order(
    before: Seq<Loc>,
    owner_before: Map<[u8; 32], u128>,
    report: Loc,
    file: u128,
    after: Seq<Loc>,
    owner_after: Map<[u8; 32], u128>,
)
    requires
        by_slot(before),
        report.file_offset is Some,
        report_taken(before, owner_before, report, file, after, owner_after),
    ensures
        by_slot(after),
        one_per_slot(before) ==> one_per_slot(after),
        fills(after, report.slot()->0),
        forall|s: u64| fills(before, s) ==> fills(after, s),
        forall|s: u64| fills(after, s) ==> fills(before, s) || report.slot() == Some(s),
{
    let slot = report.slot()->0;
    let p = choose|p: int|
        #![trigger parts_at(before, slot, p)]
        parts_at(before, slot, p) && after == placed_at(before, report, slot, p) && owner_after
            == owner_placed_at(owner_before, before, report, slot, p, file);
    parting_place_is_unique(before, slot, p);
    assert(slot < u64::MAX);
    if holds_at(before, slot, p) {
        assert(before[p].slot() == Some(slot));
        assert forall|i: int| 0 <= i < after.len() implies (#[trigger] after[i]).slot()
            == before[i].slot() && after[i].slot_key() == before[i].slot_key() && (
        after[i].file_offset is Some <==> before[i].file_offset is Some) by {}
        assert(after[p].slot() == Some(slot));
        assert forall|s: u64| fills(before, s) implies fills(after, s) by {
            let i = choose|i: int| 0 <= i < before.len() && (#[trigger] before[i]).slot() == Some(s);
            assert(after[i].slot() == Some(s));
        }
        assert forall|s: u64| fills(after, s) implies fills(before, s) by {
            let i = choose|i: int| 0 <= i < after.len() && (#[trigger] after[i]).slot() == Some(s);
            assert(before[i].slot() == Some(s));
        }
    } else {
        assert(after[p] == report);
        assert forall|i: int| 0 <= i < after.len() implies (#[trigger] after[i]) == (if i < p {
            before[i]
        } else if i == p {
            report
        } else {
            before[i - 1]
        }) by {}
        assert forall|i: int, j: int| one_per_slot(before) && 0 <= i < j < after.len() && (
        #[trigger] after[i]).file_offset is Some && (#[trigger] after[j]).file_offset is Some implies
        after[i].slot() != after[j].slot() by {
            if i == p {
                assert(before[j - 1].slot_key() >= slot);
                assert(before[j - 1].slot_key() >= before[p].slot_key());
            } else if j == p {
                assert(before[i].slot_key() < slot);
            }
        }
        assert forall|s: u64| fills(before, s) implies fills(after, s) by {
            let i = choose|i: int| 0 <= i < before.len() && (#[trigger] before[i]).slot() == Some(s);
            if i < p {
                assert(after[i].slot() == Some(s));
            } else {
                assert(after[i + 1].slot() == Some(s));
            }
        }
        assert forall|s: u64| fills(after, s) implies fills(before, s) || report.slot() == Some(
            s,
        ) by {
            let i = choose|i: int| 0 <= i < after.len() && (#[trigger] after[i]).slot() == Some(s);
            if i < p {
                assert(before[i].slot() == Some(s));
            } else if i > p {
                assert(before[i - 1].slot() == Some(s));
            }
        }
    }
}

/// What a report with a place makes of an entry that is ordered by slot.
pub open spec fn taken_in(list: Seq<Loc>, report: Loc) -> Seq<Loc> {
    let slot = report.slot()->0;
    placed_at(list, report, slot, choose|p: int| #[trigger] parts_at(list, slot, p))
}

/// In an ordered entry there is a place for every slot.
proof fn some_place_parts(list: Seq<Loc>, slot: u64)
    requires
        by_slot(list),
    ensures
        exists|p: int| #[trigger] parts_at(list, slot, p),
    decreases list.len(),
{
    if list.len() == 0 || list.last().slot_key() < slot {
        assert(parts_at(list, slot, list.len() as int));
    } else {
        let init = list.drop_last();
        assert(by_slot(init)) by {
            assert forall|i: int, j: int| 0 <= i <= j < init.len() implies (
            #[trigger] init[i]).slot_key() <= (#[trigger] init[j]).slot_key() by {
                assert(list[i].slot_key() <= list[j].slot_key());
            }
        }
        some_place_parts(init, slot);
        let p = choose|p: int| #[trigger] parts_at(init, slot, p);
        assert(parts_at(list, slot, p)) by {
            if p > 0 {
                assert(init[p - 1] == list[p - 1]);
            }
            if p < init.len() {
                assert(init[p] == list[p]);
            }
        }
    }
}

/// For an entry in order, the outcome of a report is determined.
pub proof fn report_outcome_is_determined(
    before: Seq<Loc>,
    owner_before: Map<[u8; 32], u128>,
    report: Loc,
    file: u128,
    after: Seq<Loc>,
    owner_after: Map<[u8; 32], u128>,
)
    requires
        by_slot(before),
        report.file_offset is Some,
        report_taken(before, owner_before, report, file, after, owner_after),
    ensures
        after == taken_in(before, report),
{
    let slot = report.slot()->0;
    let p = choose|p: int|
        #![trigger parts_at(before, slot, p)]
        parts_at(before, slot, p) && after == placed_at(before, report, slot, p) && owner_after
            == owner_placed_at(owner_before, before, report, slot, p, file);
    parting_place_is_unique(before, slot, p);
}

/// The entry after a run of reports, taken in one after the other.
pub open spec fn delivered(start: Seq<Loc>, reports: Seq<Loc>) -> Seq<Loc>
    decreases reports.len(),
{
    if reports.len() == 0 {
        start
    } else {
        taken_in(delivered(start, reports.drop_last()), reports.last())
    }
}

/// How recent a location counts by its client write sequence: one without comes before all others.
pub open spec fn recency(l: Loc) -> int {
    match l.client_write_seq {
        Some(seq) => seq as int,
        None => -1,
    }
}

/// What a slot may come to hold: what it held, if anything, and what is reported of it.
pub open spec fn candidates(start: Seq<Loc>, slot: u64, reports: Seq<Loc>) -> Seq<Loc> {
    match first_filling(start, slot) {
        Some(i) => seq![start[i]] + reports,
        None => reports,
    }
}

/// The location held for the slot is one of these, and none of them counts as more recent.
pub open spec fn newest_holds(list: Seq<Loc>, slot: u64, among: Seq<Loc>) -> bool {
    exists|i: int, k: int|
        #![trigger list[i], among[k]]
        0 <= i < list.len() && 0 <= k < among.len() && list[i].slot() == Some(slot) && list[i]
            == among[k] && (forall|j: int|
            0 <= j < among.len() ==> recency(#[trigger] among[j]) <= recency(among[k]))
}

/// At most one location fills the slot.
pub open spec fn filled_once(list: Seq<Loc>, slot: u64) -> bool {
    forall|i: int, j: int|
        0 <= i < j < list.len() && (#[trigger] list[i]).slot() == Some(slot) ==> (
        #[trigger] list[j]).slot() != Some(slot)
}

proof fn report_fills_once(list: Seq<Loc>, report: Loc, slot: u64, p: int)
    requires
        by_slot(list),
        filled_once(list, slot),
        report.slot() == Some(slot),
        parts_at(list, slot, p),
    ensures
        filled_once(placed_at(list, report, slot, p), slot),
{
    let after = placed_at(list, report, slot, p);
    parting_place_is_unique(list, slot, p);
    assert(slot < u64::MAX);
    assert forall|i: int, j: int| 0 <= i < j < after.len() && (#[trigger] after[i]).slot() == Some(
        slot,
    ) implies (#[trigger] after[j]).slot() != Some(slot) by {
        if holds_at(list, slot, p) {
            assert(list[p].slot() == Some(slot));
            assert(after[i].slot() == list[i].slot());
            assert(after[j].slot() == list[j].slot());
        } else {
            if i < p {
                assert(after[i] == list[i]);
                assert(list[i].slot_key() < slot);
            } else if j > p {
                assert(after[j] == list[j - 1]);
                assert(list[j - 1].slot_key() >= list[p].slot_key());
            }
        }
    }
}

/// Reports on one slot, each with its own chunk and its own client write sequence, leave the
/// slot holding the one with the highest sequence, in whatever order they arrive. What the slot
/// held before stays only if its own sequence is higher than theirs.
pub proof fn reports_converge_on_highest_write_seq(start: Seq<Loc>, slot: u64, reports: Seq<Loc>)
    requires
        by_slot(start),
        filled_once(start, slot),
        reports.len() > 0,
        forall|k: int|
            0 <= k < reports.len() ==> (#[trigger] reports[k]).slot() == Some(slot)
                && reports[k].client_write_seq is Some,
        forall|j: int, k: int|
            0 <= j < k < candidates(start, slot, reports).len() ==> (#[trigger] candidates(
                start,
                slot,
                reports,
            )[j]).chunk_id != (#[trigger] candidates(start, slot, reports)[k]).chunk_id,
    ensures
        newest_holds(delivered(start, reports), slot, candidates(start, slot, reports)),
        by_slot(delivered(start, reports)),
        filled_once(delivered(start, reports), slot),
        one_per_slot(start) ==> one_per_slot(delivered(start, reports)),
    decreases reports.len(),
{
    let n = reports.len();
    let reports0 = reports.drop_last();
    let prev = delivered(start, reports0);
    let last = reports[n - 1];
    let now = delivered(start, reports);
    let all = candidates(start, slot, reports);
    let all0 = candidates(start, slot, reports0);
    first_filling_is_first(start, slot);
    assert(all.drop_last() =~= all0);
    assert(all.last() == last);
    assert(last.slot() == Some(slot));
    assert(slot < u64::MAX);
    if n > 1 {
        assert forall|k: int| 0 <= k < reports0.len() implies (#[trigger] reports0[k]).slot()
            == Some(slot) && reports0[k].client_write_seq is Some by {
            assert(reports[k].slot() == Some(slot));
        }
        assert forall|j: int, k: int| 0 <= j < k < all0.len() implies (
        #[trigger] all0[j]).chunk_id != (#[trigger] all0[k]).chunk_id by {
            assert(all[j].chunk_id != all[k].chunk_id);
        }
        reports_converge_on_highest_write_seq(start, slot, reports0);
    } else {
        assert(reports0.len() == 0);
        assert(prev == start);
    }
    some_place_parts(prev, slot);
    let p = choose|p: int| #[trigger] parts_at(prev, slot, p);
    assert(now == placed_at(prev, last, slot, p));
    parting_place_is_unique(prev, slot, p);
    report_fills_once(prev, last, slot, p);
    report_keeps_entry_in_order(
        prev,
        Map::empty(),
        last,
        0,
        now,
        owner_placed_at(Map::empty(), prev, last, slot, p, 0),
    );
    if all.len() == 1 {
        if holds_at(prev, slot, p) {
            assert(prev[p].slot() == Some(slot));
        }
        assert(now[p] == all[0]);
    } else {
        if n == 1 {
            let i = first_filling(start, slot)->0;
            assert(prev[i] == all0[0]);
            assert(newest_holds(prev, slot, all0));
        }
        highest_stays(prev, slot, all, p);
    }
}

proof fn highest_stays(prev: Seq<Loc>, slot: u64, among: Seq<Loc>, p: int)
    requires
        among.len() > 1,
        by_slot(prev),
        filled_once(prev, slot),
        newest_holds(prev, slot, among.drop_last()),
        parts_at(prev, slot, p),
        among.last().slot() == Some(slot),
        among.last().client_write_seq is Some,
        forall|j: int, k: int|
            0 <= j < k < among.len() ==> (#[trigger] among[j]).chunk_id != (
            #[trigger] among[k]).chunk_id,
    ensures
        newest_holds(placed_at(prev, among.last(), slot, p), slot, among),
{
    let n = among.len();
    let last = among[n - 1];
    let among0 = among.drop_last();
    let now = placed_at(prev, last, slot, p);
    let (i, k) = choose|i: int, k: int|
        #![trigger prev[i], among0[k]]
        0 <= i < prev.len() && 0 <= k < among0.len() && prev[i].slot() == Some(slot) && prev[i]
            == among0[k] && (forall|j: int|
            0 <= j < among0.len() ==> recency(#[trigger] among0[j]) <= recency(among0[k]));
    parting_place_is_unique(prev, slot, p);
    assert(slot < u64::MAX);
    assert(i >= p);
    assert(prev[p].slot_key() <= prev[i].slot_key());
    assert(prev[p].slot() == Some(slot));
    assert(i == p);
    assert(among0[k] == among[k]);
    assert(among[k].chunk_id != among[n - 1].chunk_id);
    let w = if report_wins(prev[p], last) {
        n - 1
    } else {
        k
    };
    assert(now[p] == among[w]);
    assert(now[p].slot() == Some(slot));
    assert forall|j: int| 0 <= j < among.len() implies recency(#[trigger] among[j]) <= recency(
        among[w],
    ) by {
        if j < n - 1 {
            assert(recency(among0[j]) <= recency(among0[k]));
        }
    }
}

proof fn with_place_members(list: Seq<Loc>)
    ensures
        with_place(list).len() <= list.len(),
        forall|i: int|
            0 <= i < with_place(list).len() ==> (#[trigger] with_place(list)[i]).file_offset is Some,
        forall|i: int|
            0 <= i < list.len() && (#[trigger] list[i]).file_offset is Some ==> with_place(
                list,
            ).contains(list[i]),
        by_slot(list) ==> by_slot(with_place(list)),
        by_slot(list) && list.len() > 0 ==> forall|i: int|
            0 <= i < with_place(list).len() ==> (#[trigger] with_place(list)[i]).slot_key()
                <= list.last().slot_key(),
    decreases list.len(),
{
    if list.len() > 0 {
        let init = list.drop_last();
        with_place_members(init);
        let w0 = with_place(init);
        let w = with_place(list);
        if by_slot(list) {
            assert forall|i: int, j: int| 0 <= i <= j < init.len() implies (
            #[trigger] init[i]).slot_key() <= (#[trigger] init[j]).slot_key() by {
                assert(list[i].slot_key() <= list[j].slot_key());
            }
            if init.len() > 0 {
                assert(list[init.len() - 1].slot_key() <= list[list.len() - 1].slot_key());
            }
            assert forall|i: int| 0 <= i < w.len() implies (#[trigger] w[i]).slot_key()
                <= list.last().slot_key() by {
                if i < w0.len() {
                    assert(w[i] == w0[i]);
                    assert(w0[i].slot_key() <= init.last().slot_key());
                }
            }
        }
        assert forall|i: int| 0 <= i < list.len() && (
        #[trigger] list[i]).file_offset is Some implies w.contains(list[i]) by {
            if i < init.len() {
                assert(init[i] == list[i]);
                assert(w0.contains(init[i]));
                let k = choose|k: int| 0 <= k < w0.len() && w0[k] == init[i];
                assert(w[k] == list[i]);
            } else {
                assert(w[w0.len() as int] == list[i]);
            }
        }
    }
}

/// A whole-file record that is ordered by slot leaves the file's entry ordered by slot, whatever
/// of it gave way to held locations. Every slot that the record names stays filled.
pub proof fn record_keeps_entry_in_order(
    files: Map<u128, FileEntry>,
    file: u128,
    incoming: Seq<Loc>,
    on_disk: Seq<bool>,
    middle: Seq<Loc>,
)
    requires
        by_slot(incoming),
        on_disk.len() == incoming.len(),
        all_weighed(files, file, incoming, on_disk, middle),
    ensures
        by_slot(with_place(middle)),
        forall|s: u64| fills(incoming, s) ==> fills(with_place(middle), s),
{
    assert forall|i: int| 0 <= i < incoming.len() implies (#[trigger] middle[i]).slot_key()
        == incoming[i].slot_key() && middle[i].slot() == incoming[i].slot() by {
        if files.dom().contains(file) {
            let held = files[file].0;
            assert(weighed(held, incoming[i], on_disk[i], middle[i]));
            match incoming[i].slot() {
                Some(slot) => {
                    let p = choose|p: int|
                        #![trigger parts_at(held, slot, p)]
                        parts_at(held, slot, p) && middle[i] == (if holds_at(held, slot, p)
                            && crate::chunk_map::record_is_stale(held[p], incoming[i], on_disk[i]) {
                            held[p]
                        } else {
                            incoming[i]
                        });
                    assert(slot < u64::MAX);
                },
                None => {},
            }
        }
    }
    assert(by_slot(middle)) by {
        assert forall|i: int, j: int| 0 <= i <= j < middle.len() implies (
        #[trigger] middle[i]).slot_key() <= (#[trigger] middle[j]).slot_key() by {
            assert(incoming[i].slot_key() <= incoming[j].slot_key());
        }
    }
    with_place_members(middle);
    assert forall|s: u64| fills(incoming, s) implies fills(with_place(middle), s) by {
        let i = choose|i: int| 0 <= i < incoming.len() && (#[trigger] incoming[i]).slot() == Some(s);
        assert(middle[i].slot() == Some(s));
        assert(with_place(middle).contains(middle[i]));
        let k = choose|k: int| 0 <= k < with_place(middle).len() && with_place(middle)[k] == middle[i];
        assert(with_place(middle)[k].slot() == Some(s));
    }
}

proof fn filled_up_members(held: Seq<Loc>, extra: Seq<Loc>)
    ensures
        filled_up(held, extra).len() >= held.len(),
        forall|i: int| 0 <= i < held.len() ==> filled_up(held, extra)[i] == #[trigger] held[i],
        forall|s: u64| fills(extra, s) ==> fills(filled_up(held, extra), s),
        one_per_slot(held) ==> one_per_slot(filled_up(held, extra)),
        offsets_below_max(held) && offsets_below_max(extra) ==> offsets_below_max(
            filled_up(held, extra),
        ),
    decreases extra.len(),
{
    if extra.len() > 0 {
        let init = extra.drop_last();
        filled_up_members(held, init);
        let f0 = filled_up(held, init);
        let f = filled_up(held, extra);
        assert forall|i: int| 0 <= i < f0.len() implies f[i] == #[trigger] f0[i] by {}
        assert forall|s: u64| fills(extra, s) implies fills(f, s) by {
            let i = choose|i: int| 0 <= i < extra.len() && (#[trigger] extra[i]).slot() == Some(s);
            if i < init.len() {
                assert(init[i].slot() == Some(s));
                assert(fills(init, s));
                let k = choose|k: int| 0 <= k < f0.len() && (#[trigger] f0[k]).slot() == Some(s);
                assert(f[k].slot() == Some(s));
            } else if fills(f0, s) {
                let k = choose|k: int| 0 <= k < f0.len() && (#[trigger] f0[k]).slot() == Some(s);
                assert(f[k].slot() == Some(s));
            } else {
                assert(f[f0.len() as int].slot() == Some(s));
            }
        }
        if one_per_slot(held) && f.len() > f0.len() {
            assert forall|i: int, j: int| 0 <= i < j < f.len() && (
            #[trigger] f[i]).file_offset is Some && (#[trigger] f[j]).file_offset is Some implies
            f[i].slot() != f[j].slot() by {
                if j < f0.len() {
                    assert(f0[i].slot() != f0[j].slot());
                } else {
                    assert(f0[i] == f[i]);
                }
            }
        }
        if offsets_below_max(held) && offsets_below_max(extra) {
            assert(offsets_below_max(init)) by {
                assert forall|i: int| 0 <= i < init.len() implies (
                #[trigger] init[i]).file_offset != Some(u64::MAX) by {
                    assert(extra[i].file_offset != Some(u64::MAX));
                }
            }
            assert forall|i: int| 0 <= i < f.len() implies (#[trigger] f[i]).file_offset != Some(
                u64::MAX,
            ) by {
                if i < f0.len() {
                    assert(f0[i].file_offset != Some(u64::MAX));
                } else {
                    assert(extra[extra.len() - 1].file_offset != Some(u64::MAX));
                }
            }
        }
    }
}

proof fn same_members(a: Seq<Loc>, b: Seq<Loc>, l: Loc)
    requires
        a.to_multiset() == b.to_multiset(),
        a.contains(l),
    ensures
        b.contains(l),
{
    broadcast use vstd::seq_lib::group_to_multiset_ensures;

    assert(a.to_multiset().count(l) > 0);
}

/// Merging a stored record leaves the entry ordered, drops nothing that the map held, and fills
/// every slot that the record names.
pub proof fn rebuild_restores_every_slot(files: Map<u128, FileEntry>, rec: FileRec)
    requires
        offsets_below_max(rec.chunk_locations),
        files.dom().contains(rec.id.id) ==> offsets_below_max(files[rec.id.id].0),
    ensures
        by_slot(rebuilt_entry(files, rec).0),
        files.dom().contains(rec.id.id) ==> forall|i: int|
            0 <= i < files[rec.id.id].0.len() ==> rebuilt_entry(files, rec).0.contains(
                #[trigger] files[rec.id.id].0[i],
            ),
        forall|s: u64|
            fills(rec.chunk_locations, s) ==> fills(rebuilt_entry(files, rec).0, s),
        rebuilt_entry(files, rec).1 >= rec.write_seq,
{
    let sorted = offset_sorted(rec.chunk_locations);
    offset_sorted_is_sorted(rec.chunk_locations);
    let out = rebuilt_entry(files, rec).0;
    assert forall|s: u64| fills(rec.chunk_locations, s) implies fills(sorted, s) by {
        let i = choose|i: int|
            0 <= i < rec.chunk_locations.len() && (#[trigger] rec.chunk_locations[i]).slot()
                == Some(s);
        same_members(rec.chunk_locations, sorted, rec.chunk_locations[i]);
        let k = choose|k: int| 0 <= k < sorted.len() && sorted[k] == rec.chunk_locations[i];
        assert(sorted[k].slot() == Some(s));
    }
    if files.dom().contains(rec.id.id) {
        let held = files[rec.id.id].0;
        let all = filled_up(held, sorted);
        filled_up_members(held, sorted);
        offset_sorted_is_sorted(all);
        assert forall|i: int| 0 <= i < held.len() implies out.contains(#[trigger] held[i]) by {
            assert(all[i] == held[i]);
            assert(all.contains(held[i]));
            same_members(all, out, held[i]);
        }
        assert forall|s: u64| fills(rec.chunk_locations, s) implies fills(out, s) by {
            assert(fills(sorted, s));
            assert(fills(all, s));
            let i = choose|i: int| 0 <= i < all.len() && (#[trigger] all[i]).slot() == Some(s);
            assert(all.contains(all[i]));
            same_members(all, out, all[i]);
            let k = choose|k: int| 0 <= k < out.len() && out[k] == all[i];
            assert(out[k].slot() == Some(s));
        }
    }
}

/// A patch moves at most one location on to the new identity: the first that named the old one.
/// No location changes its place.
pub proof fn patch_moves_one_location(
    list: Seq<Loc>,
    slot: Option<u64>,
    old_chunk: ChunkId,
    new_chunk: ChunkId,
    size: usize,
    written_at_ms: u64,
)
    ensures
        match patched_place(list, slot, old_chunk) {
            Some(i) => {
                let after = list.update(i, moved_on(list[i], new_chunk, size, written_at_ms));
                &&& 0 <= i < list.len()
                &&& list[i].chunk_id == old_chunk
                &&& slot is Some ==> list[i].slot() == slot
                &&& by_slot(list) ==> by_slot(after)
                &&& one_per_slot(list) ==> one_per_slot(after)
            },
            None => forall|i: int|
                0 <= i < list.len() && (#[trigger] list[i]).chunk_id == old_chunk ==> slot is Some
                    && list[i].slot() != slot,
        },
    decreases list.len(),
{
    if list.len() > 0 {
        let init = list.drop_last();
        patch_moves_one_location(init, slot, old_chunk, new_chunk, size, written_at_ms);
        assert forall|j: int| 0 <= j < init.len() implies init[j] == list[j] by {}
        if patched_place(list, slot, old_chunk) is None {
            assert forall|i: int| 0 <= i < list.len() && (
            #[trigger] list[i]).chunk_id == old_chunk implies slot is Some && list[i].slot()
                != slot by {
                if i < init.len() {
                    assert(init[i].chunk_id == old_chunk);
                }
            }
        } else {
            let i = patched_place(list, slot, old_chunk)->0;
            let after = list.update(i, moved_on(list[i], new_chunk, size, written_at_ms));
            assert forall|j: int| 0 <= j < list.len() implies (#[trigger] after[j]).slot()
                == list[j].slot() && after[j].slot_key() == list[j].slot_key()
                && after[j].file_offset == list[j].file_offset by {}
        }
    }
}

} // verus!
