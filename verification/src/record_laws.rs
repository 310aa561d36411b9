//! What holds of file records whichever way they come in: by a put, by replication between
//! nodes, or out of a disseminated batch.
use vstd::prelude::*;

use crate::chunk_map::{filled_up, with_place};
use crate::loc_list::{
    fills, first_filling, first_filling_is_first, insert_ordered, offset_sorted,
    offset_sorted_is_sorted,
};
use crate::metadata::{
    absent_peers, alive, as_held, bare, chunk_ids_of, corrections_of, current_record,
    disseminated, first_at, first_at_in_range, first_files, first_files_differ, grave, guarded,
    newer_of, of_file, online_peers, others, put_reconciled, queue_batch, renamed, replicated,
    spent, stored_of, worth_telling, PutFileResult,
};
use crate::types::{ChunkId, FileId, FileMetadata, FileRec, Loc, NodeId, NodeInfo, NodeStatus};

verus! {

pub(crate) proof fn sorted_has_the_same(list: Seq<Loc>, l: Loc)
    ensures
        offset_sorted(list).contains(l) <==> list.contains(l),
{
    broadcast use vstd::seq_lib::group_to_multiset_ensures;

    offset_sorted_is_sorted(list);
    assert(offset_sorted(list).to_multiset().count(l) == list.to_multiset().count(l));
}

pub(crate) proof fn filled_up_members(held: Seq<Loc>, extra: Seq<Loc>)
    ensures
        forall|i: int|
            0 <= i < held.len() ==> filled_up(held, extra)[i] == #[trigger] held[i],
        filled_up(held, extra).len() >= held.len(),
        forall|k: int|
            held.len() <= k < filled_up(held, extra).len() ==> extra.contains(
                #[trigger] filled_up(held, extra)[k],
            ),
        forall|k: int|
            held.len() <= k < filled_up(held, extra).len() && (#[trigger] filled_up(
                held,
                extra,
            )[k]).file_offset is Some ==> forall|i: int|
                0 <= i < k ==> (#[trigger] filled_up(held, extra)[i]).slot() != filled_up(
                    held,
                    extra,
                )[k].slot(),
    decreases extra.len(),
{
    if extra.len() > 0 {
        let init = extra.drop_last();
        filled_up_members(held, init);
        let f0 = filled_up(held, init);
        let f = filled_up(held, extra);
        assert forall|k: int| held.len() <= k < f.len() implies extra.contains(#[trigger] f[k]) by {
            if k < f0.len() {
                assert(init.contains(f0[k]));
                let j = choose|j: int| 0 <= j < init.len() && init[j] == f0[k];
                assert(extra[j] == f[k]);
            } else {
                assert(f[k] == extra[extra.len() - 1]);
            }
        }
        assert forall|k: int|
            held.len() <= k < f.len() && (#[trigger] f[k]).file_offset is Some implies forall|
            i: int,
        |
            0 <= i < k ==> (#[trigger] f[i]).slot() != f[k].slot() by {
            assert forall|i: int| 0 <= i < k implies (#[trigger] f[i]).slot() != f[k].slot() by {
                if k < f0.len() {
                    assert(f0[k] == f[k]);
                    assert(f0[i] == f[i]);
                } else {
                    assert(f0[i] == f[i]);
                    assert(f0[i].slot() != f[k].slot());
                }
            }
        }
    }
}

proof fn filled_up_takes_the_first(held: Seq<Loc>, extra: Seq<Loc>, j: int)
    requires
        0 <= j < extra.len(),
        extra[j].file_offset is Some,
        !fills(held, extra[j].slot()->0),
        forall|m: int| 0 <= m < j ==> (#[trigger] extra[m]).slot() != extra[j].slot(),
    ensures
        filled_up(held, extra).contains(extra[j]),
    decreases extra.len(),
{
    let init = extra.drop_last();
    let f0 = filled_up(held, init);
    let f = filled_up(held, extra);
    if j < init.len() {
        assert(init[j] == extra[j]);
        assert forall|m: int| 0 <= m < j implies (#[trigger] init[m]).slot() != init[j].slot() by {
            assert(init[m] == extra[m]);
        }
        filled_up_takes_the_first(held, init, j);
        let k = choose|k: int| 0 <= k < f0.len() && f0[k] == extra[j];
        assert(f[k] == extra[j]);
    } else {
        filled_up_members(held, init);
        let slot = extra[j].slot()->0;
        if fills(f0, slot) {
            let k = choose|k: int| 0 <= k < f0.len() && (#[trigger] f0[k]).slot() == Some(slot);
            if k < held.len() {
                assert(held[k].slot() == Some(slot));
            } else {
                assert(init.contains(f0[k]));
                let m = choose|m: int| 0 <= m < init.len() && init[m] == f0[k];
                assert(extra[m].slot() == extra[j].slot());
            }
        }
        assert(f[f0.len() as int] == extra[j]);
    }
}

pub(crate) proof fn with_place_members(list: Seq<Loc>, l: Loc)
    ensures
        with_place(list).contains(l) <==> list.contains(l) && l.file_offset is Some,
    decreases list.len(),
{
    if list.len() > 0 {
        let init = list.drop_last();
        with_place_members(init, l);
        let w0 = with_place(init);
        let w = with_place(list);
        if w.contains(l) {
            let k = choose|k: int| 0 <= k < w.len() && w[k] == l;
            if k < w0.len() {
                assert(w0[k] == l);
                let m = choose|m: int| 0 <= m < init.len() && init[m] == l;
                assert(list[m] == l);
            } else {
                assert(list[list.len() - 1] == l);
            }
        }
        if list.contains(l) && l.file_offset is Some {
            let m = choose|m: int| 0 <= m < list.len() && list[m] == l;
            if m < init.len() {
                assert(init[m] == l);
                let k = choose|k: int| 0 <= k < w0.len() && w0[k] == l;
                assert(w[k] == l);
            } else {
                assert(w[w.len() - 1] == l);
            }
        }
    }
}

/// The place that a location of `list` has among those with a place: those of its slot that
/// stand before it there stand before it in `list`.
proof fn with_place_keeps_order(list: Seq<Loc>, j: int) -> (k: int)
    requires
        0 <= j < list.len(),
        list[j].file_offset is Some,
        forall|m: int| 0 <= m < j ==> (#[trigger] list[m]).slot() != list[j].slot(),
    ensures
        0 <= k < with_place(list).len(),
        with_place(list)[k] == list[j],
        forall|m: int| 0 <= m < k ==> (#[trigger] with_place(list)[m]).slot() != list[j].slot(),
    decreases list.len(),
{
    let init = list.drop_last();
    let w0 = with_place(init);
    let w = with_place(list);
    if j < init.len() {
        assert(init[j] == list[j]);
        assert forall|m: int| 0 <= m < j implies (#[trigger] init[m]).slot() != init[j].slot() by {
            assert(init[m] == list[m]);
        }
        let k = with_place_keeps_order(init, j);
        assert(w[k] == w0[k]);
        assert forall|m: int| 0 <= m < k implies (#[trigger] w[m]).slot() != list[j].slot() by {
            assert(w[m] == w0[m]);
        }
        k
    } else {
        let k = w.len() - 1;
        assert(w[k] == list[j]);
        assert forall|m: int| 0 <= m < k implies (#[trigger] w[m]).slot() != list[j].slot() by {
            assert(w[m] == w0[m]);
            with_place_members(init, w0[m]);
            assert(w0.contains(w0[m]));
            let i = choose|i: int| 0 <= i < init.len() && init[i] == w0[m];
            assert(list[i] == w0[m]);
        }
        k
    }
}

proof fn first_of_slot(list: Seq<Loc>, j: int)
    requires
        0 <= j < list.len(),
        list[j].file_offset is Some,
        forall|m: int|
            0 <= m < j && (#[trigger] list[m]).file_offset is Some ==> list[m].file_offset->0
                / 4194304 != list[j].file_offset->0 / 4194304,
    ensures
        first_filling(list, list[j].slot()->0) == Some(j),
{
    let slot = list[j].slot()->0;
    first_filling_is_first(list, slot);
    match first_filling(list, slot) {
        Some(i) => {
            if i < j {
                assert(list[i].slot() == Some(slot));
                assert(list[i].file_offset->0 / 4194304 != list[j].file_offset->0 / 4194304);
            }
            if j < i {
                assert(list[j].slot() == Some(slot));
            }
        },
        None => {
            assert(list[j].slot() == Some(slot));
        },
    }
}

/// A put keeps, for each slot, the later of two writes. `i` is a place of the put record, `j` the
/// first one of the chunk map's entry for the same chunk of four mebibytes. Where the put
/// location has a write time, the later time counts; where it has none, the higher client write
/// sequence does, and a sequence counts before none. The put one is stored where they are even.
pub proof fn a_put_keeps_the_later_write(
    rec: FileRec,
    known_path: Option<Seq<char>>,
    held: Seq<Loc>,
    i: int,
    j: int,
)
    requires
        0 <= i < rec.chunk_locations.len(),
        0 <= j < held.len(),
        rec.chunk_locations[i].file_offset is Some,
        held[j].file_offset is Some,
        held[j].file_offset->0 / 4194304 == rec.chunk_locations[i].file_offset->0 / 4194304,
        forall|m: int|
            0 <= m < j && (#[trigger] held[m]).file_offset is Some ==> held[m].file_offset->0
                / 4194304 != held[j].file_offset->0 / 4194304,
    ensures
        ({
            let put = rec.chunk_locations[i];
            let ours = held[j];
            let out = put_reconciled(rec, known_path, Some(held)).chunk_locations;
            &&& put.written_at is Some && ours.written_at is Some && ours.written_at->0
                > put.written_at->0 ==> out.contains(ours)
            &&& put.written_at is Some && ours.written_at is Some && ours.written_at->0
                <= put.written_at->0 ==> out.contains(put)
            &&& put.written_at is Some && ours.written_at is None ==> out.contains(put)
            &&& put.written_at is None && put.client_write_seq is Some && ours.client_write_seq
                is Some && ours.client_write_seq->0 > put.client_write_seq->0 ==> out.contains(ours)
            &&& put.written_at is None && put.client_write_seq is Some && ours.client_write_seq
                is Some && ours.client_write_seq->0 <= put.client_write_seq->0 ==> out.contains(put)
            &&& put.written_at is None && put.client_write_seq is None && ours.client_write_seq
                is Some ==> out.contains(ours)
            &&& put.written_at is None && ours.client_write_seq is None ==> out.contains(put)
        }),
{
    first_of_slot(held, j);
    let newer = rec.chunk_locations.map_values(|l: Loc| newer_of(l, held));
    let all = filled_up(newer, with_place(held));
    filled_up_members(newer, with_place(held));
    assert(newer[i] == newer_of(rec.chunk_locations[i], held));
    assert(all[i] == newer[i]);
    assert(all.contains(newer[i]));
    sorted_has_the_same(all, newer[i]);
}

/// A put stores every location of its own whose slot the chunk map's entry does not fill, and of
/// the slots that it leaves out, the entry's first location.
pub proof fn a_put_joins_both_sides(
    rec: FileRec,
    known_path: Option<Seq<char>>,
    held: Seq<Loc>,
    i: int,
    j: int,
)
    requires
        rec.chunk_locations.len() > 0,
    ensures
        ({
            let out = put_reconciled(rec, known_path, Some(held)).chunk_locations;
            &&& 0 <= i < rec.chunk_locations.len() && rec.chunk_locations[i].file_offset is None
                ==> out.contains(rec.chunk_locations[i])
            &&& 0 <= i < rec.chunk_locations.len() && rec.chunk_locations[i].file_offset is Some
                && (forall|m: int|
                0 <= m < held.len() && (#[trigger] held[m]).file_offset is Some
                    ==> held[m].file_offset->0 / 4194304 != rec.chunk_locations[i].file_offset->0
                    / 4194304) ==> out.contains(rec.chunk_locations[i])
            &&& 0 <= j < held.len() && held[j].file_offset is Some && (forall|m: int|
                0 <= m < rec.chunk_locations.len() && (
                #[trigger] rec.chunk_locations[m]).file_offset is Some
                    ==> rec.chunk_locations[m].file_offset->0 / 4194304 != held[j].file_offset->0
                    / 4194304) && (forall|m: int|
                0 <= m < j && (#[trigger] held[m]).file_offset is Some ==> held[m].file_offset->0
                    / 4194304 != held[j].file_offset->0 / 4194304) ==> out.contains(held[j])
        }),
{
    let locations = rec.chunk_locations;
    let newer = locations.map_values(|l: Loc| newer_of(l, held));
    let all = filled_up(newer, with_place(held));
    filled_up_members(newer, with_place(held));
    if 0 <= i < locations.len() {
        assert(newer[i] == newer_of(locations[i], held));
        assert(all[i] == newer[i]);
        assert(all.contains(newer[i]));
        sorted_has_the_same(all, newer[i]);
        if locations[i].file_offset is Some {
            first_filling_is_first(held, locations[i].slot()->0);
        }
    }
    if 0 <= j < held.len() && held[j].file_offset is Some && (forall|m: int|
        0 <= m < locations.len() && (#[trigger] locations[m]).file_offset is Some
            ==> locations[m].file_offset->0 / 4194304 != held[j].file_offset->0 / 4194304) && (
    forall|m: int|
        0 <= m < j && (#[trigger] held[m]).file_offset is Some ==> held[m].file_offset->0 / 4194304
            != held[j].file_offset->0 / 4194304) {
        let slot = held[j].slot()->0;
        assert forall|m: int| 0 <= m < j implies (#[trigger] held[m]).slot() != held[j].slot() by {
            if held[m].file_offset is Some {
                assert(held[m].file_offset->0 / 4194304 != held[j].file_offset->0 / 4194304);
            }
        }
        let k = with_place_keeps_order(held, j);
        if fills(newer, slot) {
            let m = choose|m: int| 0 <= m < newer.len() && (#[trigger] newer[m]).slot() == Some(
                slot,
            );
            assert(newer[m] == newer_of(locations[m], held));
            if locations[m].file_offset is Some {
                first_filling_is_first(held, locations[m].slot()->0);
                assert(locations[m].file_offset->0 / 4194304 != held[j].file_offset->0 / 4194304);
            }
        }
        filled_up_takes_the_first(newer, with_place(held), k);
        sorted_has_the_same(all, held[j]);
    }
}

/// A put makes nothing up: what it stores are its own locations and those of the chunk map's
/// entry. It stores all of its own where there is no entry, and none where it has none. All else
/// is as put, but for the path, which stays the known one.
pub proof fn a_put_makes_nothing_up(
    rec: FileRec,
    known_path: Option<Seq<char>>,
    held: Option<Seq<Loc>>,
    l: Loc,
)
    ensures
        put_reconciled(rec, known_path, held).chunk_locations.contains(l)
            ==> rec.chunk_locations.contains(l) || (held is Some && held->0.contains(l)
            && l.file_offset is Some),
        held is None ==> put_reconciled(rec, known_path, held).chunk_locations
            == rec.chunk_locations,
        rec.chunk_locations.len() == 0 ==> put_reconciled(
            rec,
            known_path,
            held,
        ).chunk_locations.len() == 0,
        known_path is Some ==> put_reconciled(rec, known_path, held).path == known_path->0,
        known_path is None ==> put_reconciled(rec, known_path, held).path == rec.path,
        put_reconciled(rec, known_path, held) == (FileRec {
            path: put_reconciled(rec, known_path, held).path,
            chunk_locations: put_reconciled(rec, known_path, held).chunk_locations,
            ..rec
        }),
{
    if held is Some {
        let h = held->0;
        let locations = rec.chunk_locations;
        let newer = locations.map_values(|l: Loc| newer_of(l, h));
        let all = filled_up(newer, with_place(h));
        if newer.len() > 0 && offset_sorted(all).contains(l) {
            sorted_has_the_same(all, l);
            filled_up_members(newer, with_place(h));
            let k = choose|k: int| 0 <= k < all.len() && all[k] == l;
            if k < newer.len() {
                assert(all[k] == newer[k]);
                assert(newer[k] == newer_of(locations[k], h));
                if locations[k].slot() is Some {
                    first_filling_is_first(h, locations[k].slot()->0);
                }
                assert(locations.contains(locations[k]));
            } else {
                assert(with_place(h).contains(all[k]));
                with_place_members(h, l);
            }
        }
    }
}

proof fn insert_ordered_differ(list: Seq<Loc>, l: Loc, differ: spec_fn(Loc, Loc) -> bool)
    requires
        forall|a: Loc, b: Loc| #[trigger] differ(a, b) ==> differ(b, a),
        forall|i: int, j: int| 0 <= i < j < list.len() ==> #[trigger] differ(list[i], list[j]),
        forall|i: int| 0 <= i < list.len() ==> differ(#[trigger] list[i], l),
    ensures
        forall|i: int, j: int|
            0 <= i < j < insert_ordered(list, l).len() ==> #[trigger] differ(
                insert_ordered(list, l)[i],
                insert_ordered(list, l)[j],
            ),
        forall|i: int|
            0 <= i < insert_ordered(list, l).len() ==> #[trigger] insert_ordered(list, l)[i] == l
                || list.contains(insert_ordered(list, l)[i]),
    decreases list.len(),
{
    let r = insert_ordered(list, l);
    if list.len() == 0 || list.last().order_key() <= l.order_key() {
        assert(r == list.push(l));
        assert forall|i: int, j: int| 0 <= i < j < r.len() implies #[trigger] differ(r[i], r[j]) by {
            if j < list.len() {
                assert(differ(list[i], list[j]));
            } else {
                assert(r[i] == list[i]);
                assert(differ(list[i], l));
            }
        }
        assert forall|i: int| 0 <= i < r.len() implies #[trigger] r[i] == l || list.contains(
            r[i],
        ) by {
            if i < list.len() {
                assert(r[i] == list[i]);
            }
        }
    } else {
        let init = list.drop_last();
        assert forall|i: int, j: int| 0 <= i < j < init.len() implies #[trigger] differ(
            init[i],
            init[j],
        ) by {
            assert(differ(list[i], list[j]));
        }
        assert forall|i: int| 0 <= i < init.len() implies differ(#[trigger] init[i], l) by {
            assert(differ(list[i], l));
        }
        insert_ordered_differ(init, l, differ);
        let r0 = insert_ordered(init, l);
        let last = list.last();
        assert(r == r0.push(last));
        assert forall|i: int| 0 <= i < r.len() implies #[trigger] r[i] == l || list.contains(
            r[i],
        ) by {
            if i < r0.len() {
                assert(r[i] == r0[i]);
                if r0[i] != l {
                    let m = choose|m: int| 0 <= m < init.len() && init[m] == r0[i];
                    assert(list[m] == r0[i]);
                }
            } else {
                assert(r[i] == list[list.len() - 1]);
            }
        }
        assert forall|i: int, j: int| 0 <= i < j < r.len() implies #[trigger] differ(r[i], r[j]) by {
            if j < r0.len() {
                assert(differ(r0[i], r0[j]));
            } else {
                assert(r[i] == r0[i]);
                assert(r[j] == last);
                if r0[i] == l {
                    assert(differ(list[list.len() - 1], l));
                } else {
                    let m = choose|m: int| 0 <= m < init.len() && init[m] == r0[i];
                    assert(differ(list[m], list[list.len() - 1]));
                }
            }
        }
    }
}

/// Sorting keeps locations apart that differ in some respect pairwise.
proof fn offset_sorted_differ(list: Seq<Loc>, differ: spec_fn(Loc, Loc) -> bool)
    requires
        forall|a: Loc, b: Loc| #[trigger] differ(a, b) ==> differ(b, a),
        forall|i: int, j: int| 0 <= i < j < list.len() ==> #[trigger] differ(list[i], list[j]),
    ensures
        forall|i: int, j: int|
            0 <= i < j < offset_sorted(list).len() ==> #[trigger] differ(
                offset_sorted(list)[i],
                offset_sorted(list)[j],
            ),
    decreases list.len(),
{
    if list.len() > 0 {
        let init = list.drop_last();
        assert forall|i: int, j: int| 0 <= i < j < init.len() implies #[trigger] differ(
            init[i],
            init[j],
        ) by {
            assert(differ(list[i], list[j]));
        }
        offset_sorted_differ(init, differ);
        let s0 = offset_sorted(init);
        assert forall|i: int| 0 <= i < s0.len() implies differ(#[trigger] s0[i], list.last()) by {
            sorted_has_the_same(init, s0[i]);
            assert(s0.contains(s0[i]));
            let m = choose|m: int| 0 <= m < init.len() && init[m] == s0[i];
            assert(differ(list[m], list[list.len() - 1]));
        }
        insert_ordered_differ(s0, list.last(), differ);
    }
}

/// A put that names each chunk of four mebibytes once is stored that way: what the chunk map's
/// entry adds or replaces never makes two locations of one.
pub proof fn a_put_fills_no_slot_twice(
    rec: FileRec,
    known_path: Option<Seq<char>>,
    held: Seq<Loc>,
    i: int,
    j: int,
)
    requires
        forall|m: int, n: int|
            0 <= m < n < rec.chunk_locations.len() && (
            #[trigger] rec.chunk_locations[m]).file_offset is Some && (
            #[trigger] rec.chunk_locations[n]).file_offset is Some
                ==> rec.chunk_locations[m].file_offset->0 / 4194304
                != rec.chunk_locations[n].file_offset->0 / 4194304,
        0 <= i < j < put_reconciled(rec, known_path, Some(held)).chunk_locations.len(),
        put_reconciled(rec, known_path, Some(held)).chunk_locations[i].file_offset is Some,
        put_reconciled(rec, known_path, Some(held)).chunk_locations[j].file_offset is Some,
    ensures
        put_reconciled(rec, known_path, Some(held)).chunk_locations[i].file_offset->0 / 4194304
            < put_reconciled(rec, known_path, Some(held)).chunk_locations[j].file_offset->0
            / 4194304,
{
    let locations = rec.chunk_locations;
    let newer = locations.map_values(|l: Loc| newer_of(l, held));
    let all = filled_up(newer, with_place(held));
    let out = offset_sorted(all);
    let differ = |a: Loc, b: Loc| a.file_offset is Some && b.file_offset is Some ==> a.slot()
        != b.slot();
    filled_up_members(newer, with_place(held));
    assert forall|m: int, n: int| 0 <= m < n < all.len() implies #[trigger] differ(
        all[m],
        all[n],
    ) by {
        if n < newer.len() {
            assert(all[m] == newer[m] && all[n] == newer[n]);
            assert(newer[m] == newer_of(locations[m], held));
            assert(newer[n] == newer_of(locations[n], held));
            if locations[m].slot() is Some {
                first_filling_is_first(held, locations[m].slot()->0);
            }
            if locations[n].slot() is Some {
                first_filling_is_first(held, locations[n].slot()->0);
            }
            if locations[m].file_offset is Some && locations[n].file_offset is Some {
                assert(locations[m].file_offset->0 / 4194304 != locations[n].file_offset->0
                    / 4194304);
            }
        } else if all[n].file_offset is Some {
            assert(all[m].slot() != all[n].slot());
        }
    }
    offset_sorted_differ(all, differ);
    offset_sorted_is_sorted(all);
    assert(differ(out[i], out[j]));
    assert(out[i].order_key() <= out[j].order_key());
    let a = out[i].file_offset->0;
    let b = out[j].file_offset->0;
    assert(a / 4194304 <= b / 4194304) by (nonlinear_arith)
        requires
            a <= b,
    ;
}

proof fn first_at_offset(list: Seq<Loc>, j: int)
    requires
        0 <= j < list.len(),
        list[j].file_offset is Some,
        forall|m: int| 0 <= m < j ==> (#[trigger] list[m]).file_offset != list[j].file_offset,
    ensures
        first_at(list, list[j].file_offset->0) == Some(j),
{
    let offset = list[j].file_offset->0;
    first_at_in_range(list, offset);
    match first_at(list, offset) {
        Some(i) => {
            if i < j {
                assert(list[i].file_offset == list[j].file_offset);
            }
            if j < i {
                assert(list[j].file_offset == Some(offset));
            }
        },
        None => {
            assert(list[j].file_offset == Some(offset));
        },
    }
}

/// A replicated record meets, at each offset, the first location that the chunk map holds there.
/// One of the same chunk is replaced. One of another chunk stays just where it was written later
/// than the replicated one, or where it was patched and the replicated one has no write time and
/// is of no newer session.
pub proof fn a_replica_gives_way_to_later_content(
    rec: FileRec,
    held: Seq<Loc>,
    newer_session: bool,
    i: int,
    j: int,
)
    requires
        0 <= i < rec.chunk_locations.len(),
        0 <= j < held.len(),
        rec.chunk_locations[i].file_offset is Some,
        held[j].file_offset == rec.chunk_locations[i].file_offset,
        forall|m: int| 0 <= m < j ==> (#[trigger] held[m]).file_offset != held[j].file_offset,
    ensures
        ({
            let theirs = rec.chunk_locations[i];
            let ours = held[j];
            let out = replicated(rec, Some(held), newer_session).chunk_locations;
            &&& out.len() == rec.chunk_locations.len()
            &&& ours.chunk_id == theirs.chunk_id ==> out[i] == theirs
            &&& ours.chunk_id != theirs.chunk_id && ours.written_at is None ==> out[i] == theirs
            &&& ours.chunk_id != theirs.chunk_id && ours.written_at is Some && theirs.written_at
                is Some && ours.written_at->0 > theirs.written_at->0 ==> out[i] == ours
            &&& ours.chunk_id != theirs.chunk_id && ours.written_at is Some && theirs.written_at
                is Some && ours.written_at->0 <= theirs.written_at->0 ==> out[i] == theirs
            &&& ours.chunk_id != theirs.chunk_id && ours.written_at is Some && theirs.written_at
                is None && newer_session ==> out[i] == theirs
            &&& ours.chunk_id != theirs.chunk_id && ours.written_at is Some && theirs.written_at
                is None && !newer_session ==> out[i] == ours
        }),
{
    first_at_offset(held, j);
    assert(replicated(rec, Some(held), newer_session).chunk_locations[i] == guarded(
        rec.chunk_locations[i],
        held,
        newer_session,
    ));
}

/// A replicated location whose offset the chunk map does not hold is taken as it is, and so is
/// all else of the record.
pub proof fn a_replica_is_otherwise_taken_as_it_is(
    rec: FileRec,
    held: Option<Seq<Loc>>,
    newer_session: bool,
    i: int,
)
    requires
        0 <= i < rec.chunk_locations.len(),
        held is Some && rec.chunk_locations[i].file_offset is Some ==> forall|m: int|
            0 <= m < held->0.len() ==> (#[trigger] held->0[m]).file_offset
                != rec.chunk_locations[i].file_offset,
    ensures
        replicated(rec, held, newer_session).chunk_locations[i] == rec.chunk_locations[i],
        replicated(rec, held, newer_session) == (FileRec {
            chunk_locations: replicated(rec, held, newer_session).chunk_locations,
            ..rec
        }),
{
    if held is Some && rec.chunk_locations[i].file_offset is Some {
        first_at_in_range(held->0, rec.chunk_locations[i].file_offset->0);
    }
}

/// A disseminated record never replaces a chunk that this node holds by another: for each chunk
/// of four mebibytes, a location that names another chunk than the first held one gives way to
/// it, and one that names the same is taken.
pub proof fn dissemination_keeps_the_chunks_held(rec: FileRec, held: Seq<Loc>, i: int, j: int)
    requires
        0 <= i < rec.chunk_locations.len(),
        0 <= j < held.len(),
        rec.chunk_locations[i].file_offset is Some,
        held[j].file_offset is Some,
        held[j].file_offset->0 / 4194304 == rec.chunk_locations[i].file_offset->0 / 4194304,
        forall|m: int|
            0 <= m < j && (#[trigger] held[m]).file_offset is Some ==> held[m].file_offset->0
                / 4194304 != held[j].file_offset->0 / 4194304,
    ensures
        disseminated(rec, Some(held)).chunk_locations.len() == rec.chunk_locations.len(),
        disseminated(rec, Some(held)).chunk_locations[i].chunk_id == held[j].chunk_id,
        held[j].chunk_id != rec.chunk_locations[i].chunk_id ==> disseminated(
            rec,
            Some(held),
        ).chunk_locations[i] == held[j],
        held[j].chunk_id == rec.chunk_locations[i].chunk_id ==> disseminated(
            rec,
            Some(held),
        ).chunk_locations[i] == rec.chunk_locations[i],
{
    first_of_slot(held, j);
    assert(disseminated(rec, Some(held)).chunk_locations[i] == as_held(
        rec.chunk_locations[i],
        held,
    ));
}

/// A disseminated location whose slot the chunk map does not fill is taken as it is, and so is
/// all else of the record.
pub proof fn dissemination_otherwise_takes_the_record(
    rec: FileRec,
    held: Option<Seq<Loc>>,
    i: int,
)
    requires
        0 <= i < rec.chunk_locations.len(),
        held is Some && rec.chunk_locations[i].file_offset is Some ==> forall|m: int|
            0 <= m < held->0.len() && (#[trigger] held->0[m]).file_offset is Some
                ==> held->0[m].file_offset->0 / 4194304 != rec.chunk_locations[i].file_offset->0
                / 4194304,
    ensures
        disseminated(rec, held).chunk_locations[i] == rec.chunk_locations[i],
        disseminated(rec, held) == (FileRec {
            chunk_locations: disseminated(rec, held).chunk_locations,
            ..rec
        }),
{
    if held is Some && rec.chunk_locations[i].file_offset is Some {
        first_filling_is_first(held->0, rec.chunk_locations[i].slot()->0);
    }
}

/// A read answers with the chunk map's locations wherever the map has any, with the stored ones
/// otherwise, and never with a lower write sequence than the stored record has; all else is as
/// stored.
pub proof fn a_read_answers_with_the_live_locations(rec: FileRec, list: Seq<Loc>, seq: u64)
    ensures
        current_record(rec, None) == rec,
        list.len() == 0 ==> current_record(rec, Some((list, seq))) == rec,
        list.len() > 0 ==> current_record(rec, Some((list, seq))).chunk_locations == list,
        list.len() > 0 && seq > rec.write_seq ==> current_record(
            rec,
            Some((list, seq)),
        ).write_seq == seq,
        list.len() > 0 && seq <= rec.write_seq ==> current_record(
            rec,
            Some((list, seq)),
        ).write_seq == rec.write_seq,
        current_record(rec, Some((list, seq))) == (FileRec {
            chunk_locations: current_record(rec, Some((list, seq))).chunk_locations,
            write_seq: current_record(rec, Some((list, seq))).write_seq,
            ..rec
        }),
{
}

/// A listing leaves out the locations and nothing else.
pub proof fn a_listing_leaves_out_locations_alone(rec: FileRec)
    ensures
        bare(rec).chunk_locations.len() == 0,
        bare(rec) == (FileRec { chunk_locations: bare(rec).chunk_locations, ..rec }),
{
}

/// A rename changes the path and the write sequence, which goes up by one while there is room,
/// and nothing else.
pub proof fn a_rename_changes_path_and_sequence_alone(rec: FileRec, new_path: Seq<char>)
    ensures
        renamed(rec, new_path).path == new_path,
        rec.write_seq < u64::MAX ==> renamed(rec, new_path).write_seq == rec.write_seq + 1,
        rec.write_seq == u64::MAX ==> renamed(rec, new_path).write_seq == rec.write_seq,
        renamed(rec, new_path) == (FileRec {
            path: new_path,
            write_seq: renamed(rec, new_path).write_seq,
            ..rec
        }),
{
}

/// Of a batch just the records are taken whose file has no tombstone.
pub proof fn a_batch_leaves_out_the_buried(items: Seq<FileRec>, buried: Seq<bool>, rec: FileRec)
    requires
        items.len() == buried.len(),
    ensures
        alive(items, buried).contains(rec) <==> exists|i: int|
            0 <= i < items.len() && #[trigger] items[i] == rec && !buried[i],
    decreases items.len(),
{
    if items.len() > 0 {
        let init = items.drop_last();
        let b0 = buried.drop_last();
        a_batch_leaves_out_the_buried(init, b0, rec);
        let a0 = alive(init, b0);
        let a = alive(items, buried);
        if a.contains(rec) {
            let k = choose|k: int| 0 <= k < a.len() && a[k] == rec;
            if k < a0.len() {
                assert(a0[k] == rec);
                let i = choose|i: int|
                    0 <= i < init.len() && #[trigger] init[i] == rec && !b0[i];
                assert(items[i] == rec && !buried[i]);
            } else {
                assert(items[items.len() - 1] == rec && !buried[items.len() - 1]);
            }
        }
        if exists|i: int| 0 <= i < items.len() && #[trigger] items[i] == rec && !buried[i] {
            let i = choose|i: int| 0 <= i < items.len() && #[trigger] items[i] == rec && !buried[i];
            if i < init.len() {
                assert(init[i] == rec && !b0[i]);
                let k = choose|k: int| 0 <= k < a0.len() && a0[k] == rec;
                assert(a[k] == rec);
            } else {
                assert(a[a.len() - 1] == rec);
            }
        }
    }
}

/// What is told to others of a batch are just the records that were stored.
pub proof fn just_the_stored_records_travel_on(
    items: Seq<FileRec>,
    results: Seq<PutFileResult>,
    rec: FileRec,
)
    requires
        items.len() == results.len(),
    ensures
        stored_of(items, results).contains(rec) <==> exists|i: int|
            0 <= i < items.len() && #[trigger] items[i] == rec && results[i] is Stored,
    decreases items.len(),
{
    if items.len() > 0 {
        let init = items.drop_last();
        let r0 = results.drop_last();
        just_the_stored_records_travel_on(init, r0, rec);
        let a0 = stored_of(init, r0);
        let a = stored_of(items, results);
        if a.contains(rec) {
            let k = choose|k: int| 0 <= k < a.len() && a[k] == rec;
            if k < a0.len() {
                assert(a0[k] == rec);
                let i = choose|i: int|
                    0 <= i < init.len() && #[trigger] init[i] == rec && r0[i] is Stored;
                assert(items[i] == rec && results[i] is Stored);
            } else {
                assert(items[items.len() - 1] == rec && results[items.len() - 1] is Stored);
            }
        }
        if exists|i: int|
            0 <= i < items.len() && #[trigger] items[i] == rec && results[i] is Stored {
            let i = choose|i: int|
                0 <= i < items.len() && #[trigger] items[i] == rec && results[i] is Stored;
            if i < init.len() {
                assert(init[i] == rec && r0[i] is Stored);
                let k = choose|k: int| 0 <= k < a0.len() && a0[k] == rec;
                assert(a[k] == rec);
            } else {
                assert(a[a.len() - 1] == rec);
            }
        }
    }
}

/// The leader is told of just the newer records that a batch ran into.
pub proof fn just_the_newer_records_go_back(results: Seq<PutFileResult>, rec: FileRec)
    ensures
        corrections_of(results).contains(rec) <==> exists|i: int|
            0 <= i < results.len() && (#[trigger] results[i]) is Stale && results[i]->0@ == rec,
    decreases results.len(),
{
    if results.len() > 0 {
        let r0 = results.drop_last();
        just_the_newer_records_go_back(r0, rec);
        let a0 = corrections_of(r0);
        let a = corrections_of(results);
        if a.contains(rec) {
            let k = choose|k: int| 0 <= k < a.len() && a[k] == rec;
            if k < a0.len() {
                assert(a0[k] == rec);
                let i = choose|i: int|
                    0 <= i < r0.len() && (#[trigger] r0[i]) is Stale && r0[i]->0@ == rec;
                assert(results[i] is Stale && results[i]->0@ == rec);
            } else {
                assert(results[results.len() - 1] is Stale);
            }
        }
        if exists|i: int|
            0 <= i < results.len() && (#[trigger] results[i]) is Stale && results[i]->0@ == rec {
            let i = choose|i: int|
                0 <= i < results.len() && (#[trigger] results[i]) is Stale && results[i]->0@ == rec;
            if i < r0.len() {
                assert(r0[i] is Stale && r0[i]->0@ == rec);
                let k = choose|k: int| 0 <= k < a0.len() && a0[k] == rec;
                assert(a[k] == rec);
            } else {
                assert(a[a.len() - 1] == rec);
            }
        }
    }
}

/// A follower is sent just the queued records whose file still exists.
pub proof fn a_queue_sends_what_still_exists(
    items: Seq<(u64, FileRec)>,
    exists_now: Seq<bool>,
    rec: FileRec,
)
    requires
        items.len() == exists_now.len(),
    ensures
        queue_batch(items, exists_now).contains(rec) <==> exists|i: int|
            0 <= i < items.len() && (#[trigger] items[i]).1 == rec && exists_now[i],
    decreases items.len(),
{
    if items.len() > 0 {
        let init = items.drop_last();
        let e0 = exists_now.drop_last();
        a_queue_sends_what_still_exists(init, e0, rec);
        let a0 = queue_batch(init, e0);
        let a = queue_batch(items, exists_now);
        if a.contains(rec) {
            let k = choose|k: int| 0 <= k < a.len() && a[k] == rec;
            if k < a0.len() {
                assert(a0[k] == rec);
                let i = choose|i: int|
                    0 <= i < init.len() && (#[trigger] init[i]).1 == rec && e0[i];
                assert(items[i].1 == rec && exists_now[i]);
            } else {
                assert(items[items.len() - 1].1 == rec && exists_now[items.len() - 1]);
            }
        }
        if exists|i: int| 0 <= i < items.len() && (#[trigger] items[i]).1 == rec && exists_now[i] {
            let i = choose|i: int|
                0 <= i < items.len() && (#[trigger] items[i]).1 == rec && exists_now[i];
            if i < init.len() {
                assert(init[i].1 == rec && e0[i]);
                let k = choose|k: int| 0 <= k < a0.len() && a0[k] == rec;
                assert(a[k] == rec);
            } else {
                assert(a[a.len() - 1] == rec);
            }
        }
    }
}

/// A chunk's tombstone can go just where the chunk is off the disk.
pub proof fn just_the_tombstones_of_gone_chunks_go(
    chunks: Seq<ChunkId>,
    on_disk: Seq<bool>,
    chunk: ChunkId,
)
    requires
        chunks.len() == on_disk.len(),
    ensures
        spent(chunks, on_disk).contains(chunk) <==> exists|i: int|
            0 <= i < chunks.len() && #[trigger] chunks[i] == chunk && !on_disk[i],
    decreases chunks.len(),
{
    if chunks.len() > 0 {
        let init = chunks.drop_last();
        let d0 = on_disk.drop_last();
        just_the_tombstones_of_gone_chunks_go(init, d0, chunk);
        let a0 = spent(init, d0);
        let a = spent(chunks, on_disk);
        if a.contains(chunk) {
            let k = choose|k: int| 0 <= k < a.len() && a[k] == chunk;
            if k < a0.len() {
                assert(a0[k] == chunk);
                let i = choose|i: int|
                    0 <= i < init.len() && #[trigger] init[i] == chunk && !d0[i];
                assert(chunks[i] == chunk && !on_disk[i]);
            } else {
                assert(chunks[chunks.len() - 1] == chunk && !on_disk[chunks.len() - 1]);
            }
        }
        if exists|i: int| 0 <= i < chunks.len() && #[trigger] chunks[i] == chunk && !on_disk[i] {
            let i = choose|i: int|
                0 <= i < chunks.len() && #[trigger] chunks[i] == chunk && !on_disk[i];
            if i < init.len() {
                assert(init[i] == chunk && !d0[i]);
                let k = choose|k: int| 0 <= k < a0.len() && a0[k] == chunk;
                assert(a[k] == chunk);
            } else {
                assert(a[a.len() - 1] == chunk);
            }
        }
    }
}

/// A tombstone holds for thirty seconds.
pub proof fn a_tombstone_holds_for_thirty_seconds(age_ms: u64)
    ensures
        age_ms < 30 * 1000 <==> grave(Some(age_ms)) is Fresh,
        age_ms >= 30 * 1000 <==> grave(Some(age_ms)) is Expired,
        grave(None) is Absent,
{
}

/// Every other node is told at once if it is online and queued for if it is not; no one else is,
/// and this node never is.
pub proof fn peers_are_told_by_their_status(nodes: Seq<NodeInfo>, local: NodeId)
    ensures
        online_peers(nodes, local) == nodes.filter(
            |n: NodeInfo| n.id != local && n.status == NodeStatus::Online,
        ).map_values(|n: NodeInfo| n.id),
        absent_peers(nodes, local) == nodes.filter(
            |n: NodeInfo| n.id != local && n.status != NodeStatus::Online,
        ).map_values(|n: NodeInfo| n.id),
        others(nodes, local) == nodes.filter(|n: NodeInfo| n.id != local).len(),
    decreases nodes.len(),
{
    reveal(Seq::filter);
    if nodes.len() > 0 {
        peers_are_told_by_their_status(nodes.drop_last(), local);
        let on = |n: NodeInfo| n.id != local && n.status == NodeStatus::Online;
        let off = |n: NodeInfo| n.id != local && n.status != NodeStatus::Online;
        let of = |n: NodeInfo| n.id;
        assert(nodes.filter(on).map_values(of) =~= online_peers(nodes, local));
        assert(nodes.filter(off).map_values(of) =~= absent_peers(nodes, local));
    }
}

/// A record is worth telling unless it has neither a write sequence nor a location.
pub proof fn an_empty_record_is_not_worth_telling(rec: FileRec)
    ensures
        !worth_telling(rec) <==> rec.write_seq == 0 && rec.chunk_locations.len() == 0,
{
}

/// The chunks of a list are those its locations name, place by place.
pub proof fn chunks_are_named_place_by_place(list: Seq<Loc>, i: int)
    requires
        0 <= i < list.len(),
    ensures
        chunk_ids_of(list).len() == list.len(),
        chunk_ids_of(list)[i] == list[i].chunk_id,
{
}

/// A batch is folded into one record for each file: the records that are merged for a file are
/// just its own, in order, and every file that the batch has a record of comes up once.
pub proof fn a_fold_keeps_files_apart(items: Seq<FileMetadata>, file: FileId)
    ensures
        of_file(items, file) == items.filter(|m: FileMetadata| m.id == file),
        first_files(items).contains(file) <==> exists|i: int|
            0 <= i < items.len() && (#[trigger] items[i]).id == file,
        first_files(items).no_duplicates(),
    decreases items.len(),
{
    reveal(Seq::filter);
    first_files_differ(items);
    if items.len() > 0 {
        let init = items.drop_last();
        let last = items.len() - 1;
        a_fold_keeps_files_apart(init, file);
        let f0 = first_files(init);
        let f = first_files(items);
        if f0.contains(file) {
            let k = choose|k: int| 0 <= k < f0.len() && f0[k] == file;
            assert(f[k] == file);
        }
        if exists|i: int| 0 <= i < init.len() && (#[trigger] init[i]).id == file {
            let i = choose|i: int| 0 <= i < init.len() && (#[trigger] init[i]).id == file;
            assert(items[i].id == file);
        }
        if f.contains(file) && !f0.contains(file) {
            let k = choose|k: int| 0 <= k < f.len() && f[k] == file;
            if k < f0.len() {
                assert(f0[k] == file);
            }
            assert(items[last].id == file);
        }
        if exists|i: int| 0 <= i < items.len() && (#[trigger] items[i]).id == file {
            let i = choose|i: int| 0 <= i < items.len() && (#[trigger] items[i]).id == file;
            if i < last {
                assert(init[i].id == file);
                assert(f0.contains(file));
            } else if !f0.contains(file) {
                assert(f[f0.len() as int] == file);
            }
        }
    }
}

/// Files come up in a folded batch in the order of their first records.
pub proof fn a_fold_goes_by_first_records(items: Seq<FileMetadata>, i: int, j: int)
    requires
        0 <= i < j < items.len(),
        items[i].id != items[j].id,
        forall|m: int| 0 <= m < j ==> (#[trigger] items[m]).id != items[j].id,
    ensures
        exists|a: int, b: int|
            0 <= a < b < first_files(items).len() && #[trigger] first_files(items)[a] == items[i].id
                && #[trigger] first_files(items)[b] == items[j].id,
    decreases items.len(),
{
    let init = items.drop_last();
    let f0 = first_files(init);
    let f = first_files(items);
    if j < init.len() {
        assert(init[i] == items[i] && init[j] == items[j]);
        assert forall|m: int| 0 <= m < j implies (#[trigger] init[m]).id != init[j].id by {
            assert(init[m] == items[m]);
        }
        a_fold_goes_by_first_records(init, i, j);
        let (a, b) = choose|a: int, b: int|
            0 <= a < b < f0.len() && #[trigger] f0[a] == init[i].id && #[trigger] f0[b]
                == init[j].id;
        assert(f[a] == items[i].id && f[b] == items[j].id);
    } else {
        a_fold_keeps_files_apart(init, items[j].id);
        a_fold_keeps_files_apart(init, items[i].id);
        assert(init[i].id == items[i].id);
        assert(f0.contains(items[i].id));
        if f0.contains(items[j].id) {
            let m = choose|m: int| 0 <= m < init.len() && (#[trigger] init[m]).id == items[j].id;
            assert(items[m].id == items[j].id);
        }
        let a = choose|a: int| 0 <= a < f0.len() && f0[a] == items[i].id;
        assert(f[a] == items[i].id);
        assert(f[f0.len() as int] == items[j].id);
    }
}

} // verus!
