//! Ordered lists of chunk locations: searching by slot, sorting by position.
use crate::types::{locs, ChunkLocation, Loc, CHUNK_SIZE};
use vstd::prelude::*;

verus! {

/// The list is ordered by slot; locations without a place come last.
pub open spec fn by_slot(list: Seq<Loc>) -> bool {
    forall|i: int, j: int|
        0 <= i <= j < list.len() ==> (#[trigger] list[i]).slot_key() <= (
        #[trigger] list[j]).slot_key()
}

/// The list is ordered by byte offset; locations without a place come last.
pub open spec fn by_offset(list: Seq<Loc>) -> bool {
    forall|i: int, j: int|
        0 <= i <= j < list.len() ==> (#[trigger] list[i]).order_key() <= (
        #[trigger] list[j]).order_key()
}

/// No slot is filled twice.
pub open spec fn one_per_slot(list: Seq<Loc>) -> bool {
    forall|i: int, j: int|
        0 <= i < j < list.len() && (#[trigger] list[i]).file_offset is Some && (
        #[trigger] list[j]).file_offset is Some ==> list[i].slot() != list[j].slot()
}

/// Some location of the list fills the slot.
pub open spec fn fills(list: Seq<Loc>, slot: u64) -> bool {
    exists|i: int| 0 <= i < list.len() && (#[trigger] list[i]).slot() == Some(slot)
}

/// `p` parts the list at `slot`: what stands before it lies below, what it points at does not.
/// In a list ordered by slot there is exactly one such place.
pub open spec fn parts_at(list: Seq<Loc>, slot: u64, p: int) -> bool {
    &&& 0 <= p <= list.len()
    &&& p > 0 ==> list[p - 1].slot_key() < slot
    &&& p < list.len() ==> list[p].slot_key() >= slot
}

/// Whether place `p` of the list holds the slot.
pub open spec fn holds_at(list: Seq<Loc>, slot: u64, p: int) -> bool {
    0 <= p < list.len() && list[p].slot_key() == slot
}

/// No location claims the last offset there is, at which no byte can be stored.
pub open spec fn offsets_below_max(list: Seq<Loc>) -> bool {
    forall|i: int|
        0 <= i < list.len() ==> (#[trigger] list[i]).file_offset != Some(u64::MAX)
}

/// A byte order is a slot order.
pub proof fn by_offset_is_by_slot(list: Seq<Loc>)
    requires
        by_offset(list),
        offsets_below_max(list),
    ensures
        by_slot(list),
{
    assert forall|i: int, j: int| 0 <= i <= j < list.len() implies (
    #[trigger] list[i]).slot_key() <= (#[trigger] list[j]).slot_key() by {
        let a = list[i].order_key();
        let b = list[j].order_key();
        assert(a <= b);
        assert(list[i].file_offset != Some(u64::MAX));
        assert(list[j].file_offset != Some(u64::MAX));
        assert(a / CHUNK_SIZE <= b / CHUNK_SIZE) by (nonlinear_arith)
            requires
                a <= b,
                CHUNK_SIZE == 4194304u64,
        ;
    }
}

/// In an ordered list the parting place separates the whole list.
pub proof fn parting_place_is_unique(list: Seq<Loc>, slot: u64, p: int)
    requires
        by_slot(list),
        parts_at(list, slot, p),
    ensures
        forall|i: int| 0 <= i < p ==> (#[trigger] list[i]).slot_key() < slot,
        forall|i: int| p <= i < list.len() ==> (#[trigger] list[i]).slot_key() >= slot,
        forall|q: int| parts_at(list, slot, q) ==> q == p,
{
    assert forall|i: int| 0 <= i < p implies (#[trigger] list[i]).slot_key() < slot by {
        assert(list[i].slot_key() <= list[p - 1].slot_key());
    }
    assert forall|i: int| p <= i < list.len() implies (#[trigger] list[i]).slot_key() >= slot by {
        assert(list[p].slot_key() <= list[i].slot_key());
    }
    assert forall|q: int| parts_at(list, slot, q) implies q == p by {
        if q < p {
            assert(list[q].slot_key() <= list[p - 1].slot_key());
        }
        if p < q {
            assert(list[p].slot_key() <= list[q - 1].slot_key());
        }
    }
}

/// Binary search for the place where `slot` belongs.
pub fn partition_by_slot(list: &Vec<ChunkLocation>, slot: u64) -> (p: usize)
    ensures
        parts_at(locs(list@), slot, p as int),
        by_slot(locs(list@)) ==> (forall|i: int|
            0 <= i < p ==> (#[trigger] locs(list@)[i]).slot_key() < slot) && (forall|i: int|
            p <= i < list@.len() ==> (#[trigger] locs(list@)[i]).slot_key() >= slot),
{
    let mut lo: usize = 0;
    let mut hi: usize = list.len();
    while lo < hi
        invariant
            lo <= hi <= list@.len(),
            lo > 0 ==> locs(list@)[lo - 1].slot_key() < slot,
            hi < list@.len() ==> locs(list@)[hi as int].slot_key() >= slot,
        decreases hi - lo,
    {
        let mid: usize = lo + (hi - lo) / 2;
        assert(locs(list@)[mid as int] == list@[mid as int]@);
        if list[mid].slot_key() < slot {
            lo = mid + 1;
        } else {
            hi = mid;
        }
    }
    proof {
        if by_slot(locs(list@)) {
            parting_place_is_unique(locs(list@), slot, lo as int);
        }
    }
    lo
}

/// The place of the location that fills `chunk_idx`.
///
/// The list is searched as if it were ordered by slot. When it is, the answer is exact: a place
/// is returned if and only if some location fills the slot, and it is the first one that does.
pub fn chunk_map_find_by_idx(list: &Vec<ChunkLocation>, chunk_idx: u64) -> (r: Option<usize>)
    ensures
        match r {
            Some(p) => parts_at(locs(list@), chunk_idx, p as int) && holds_at(
                locs(list@),
                chunk_idx,
                p as int,
            ),
            None => exists|p: int|
                #![trigger parts_at(locs(list@), chunk_idx, p)]
                parts_at(locs(list@), chunk_idx, p) && !holds_at(locs(list@), chunk_idx, p),
        },
        by_slot(locs(list@)) ==> match r {
            Some(p) => forall|i: int|
                0 <= i < p ==> (#[trigger] locs(list@)[i]).slot_key() < chunk_idx,
            None => forall|i: int|
                0 <= i < list@.len() ==> (#[trigger] locs(list@)[i]).slot_key() != chunk_idx,
        },
{
    let pos: usize = partition_by_slot(list, chunk_idx);
    assert(pos < list@.len() ==> locs(list@)[pos as int] == list@[pos as int]@);
    if pos < list.len() && list[pos].slot_key() == chunk_idx {
        Some(pos)
    } else {
        proof {
            let ls = locs(list@);
            assert(parts_at(ls, chunk_idx, pos as int) && !holds_at(ls, chunk_idx, pos as int));
            if by_slot(ls) {
                assert forall|i: int| 0 <= i < list@.len() implies (
                #[trigger] ls[i]).slot_key() != chunk_idx by {
                    if i >= pos {
                        assert(ls[pos as int].slot_key() <= ls[i].slot_key());
                    }
                }
            }
        }
        None
    }
}

/// The first place, counted from the front, whose location fills `slot`.
pub open spec fn first_filling(list: Seq<Loc>, slot: u64) -> Option<int>
    decreases list.len(),
{
    if list.len() == 0 {
        None
    } else {
        match first_filling(list.drop_last(), slot) {
            Some(i) => Some(i),
            None => if list.last().slot() == Some(slot) {
                Some(list.len() - 1)
            } else {
                None
            },
        }
    }
}

/// `first_filling` finds the first location of the slot, and finds one whenever there is one.
pub proof fn first_filling_is_first(list: Seq<Loc>, slot: u64)
    ensures
        match first_filling(list, slot) {
            Some(i) => 0 <= i < list.len() && list[i].slot() == Some(slot) && (forall|j: int|
                0 <= j < i ==> (#[trigger] list[j]).slot() != Some(slot)),
            None => !fills(list, slot),
        },
    decreases list.len(),
{
    if list.len() > 0 {
        first_filling_is_first(list.drop_last(), slot);
        let init = list.drop_last();
        assert forall|j: int| 0 <= j < init.len() implies init[j] == list[j] by {}
        if first_filling(init, slot) is None {
            assert forall|j: int| 0 <= j < list.len() - 1 implies (#[trigger] list[j]).slot()
                != Some(slot) by {
                assert(init[j].slot() != Some(slot));
            }
        }
    }
}

/// Linear search for the first location that fills `slot`.
pub fn find_slot(list: &Vec<ChunkLocation>, slot: u64) -> (r: Option<usize>)
    ensures
        match r {
            Some(i) => first_filling(locs(list@), slot) == Some(i as int) && i < list@.len(),
            None => first_filling(locs(list@), slot) is None,
        },
{
    let mut i: usize = 0;
    while i < list.len()
        invariant
            i <= list@.len(),
            first_filling(locs(list@).take(i as int), slot) is None,
        decreases list@.len() - i,
    {
        let ghost ls = locs(list@);
        proof {
            assert(ls.take(i + 1).drop_last() =~= ls.take(i as int));
            assert(ls.take(i + 1).last() == list@[i as int]@);
        }
        if list[i].slot() == Some(slot) {
            proof {
                first_filling_is_first(ls, slot);
                first_filling_is_first(ls.take(i as int), slot);
                match first_filling(ls, slot) {
                    Some(k) => {
                        if k < i {
                            assert(ls.take(i as int)[k].slot() == Some(slot));
                        }
                        if k > i {
                            assert(ls[i as int].slot() == Some(slot));
                        }
                    },
                    None => {
                        assert(ls[i as int].slot() == Some(slot));
                    },
                }
            }
            return Some(i);
        }
        i += 1;
    }
    assert(locs(list@).take(i as int) =~= locs(list@));
    None
}

/// `l` put into an offset-ordered list, behind every location that does not lie after it.
pub open spec fn insert_ordered(list: Seq<Loc>, l: Loc) -> Seq<Loc>
    decreases list.len(),
{
    if list.len() == 0 || list.last().order_key() <= l.order_key() {
        list.push(l)
    } else {
        insert_ordered(list.drop_last(), l).push(list.last())
    }
}

/// The list ordered by offset; locations at one offset keep their order.
pub open spec fn offset_sorted(list: Seq<Loc>) -> Seq<Loc>
    decreases list.len(),
{
    if list.len() == 0 {
        list
    } else {
        insert_ordered(offset_sorted(list.drop_last()), list.last())
    }
}

proof fn insert_ordered_keeps_order(list: Seq<Loc>, l: Loc)
    requires
        by_offset(list),
    ensures
        by_offset(insert_ordered(list, l)),
        insert_ordered(list, l).len() == list.len() + 1,
        insert_ordered(list, l).to_multiset() == list.to_multiset().insert(l),
        insert_ordered(list, l).last().order_key() == if list.len() == 0
            || list.last().order_key() <= l.order_key() {
            l.order_key()
        } else {
            list.last().order_key()
        },
    decreases list.len(),
{
    broadcast use vstd::seq_lib::group_to_multiset_ensures;

    if list.len() == 0 || list.last().order_key() <= l.order_key() {
        let r = list.push(l);
        assert forall|i: int, j: int| 0 <= i <= j < r.len() implies (#[trigger] r[i]).order_key()
            <= (#[trigger] r[j]).order_key() by {
            if j == list.len() && i < j {
                assert(list[i].order_key() <= list.last().order_key());
            }
        }
    } else {
        let init = list.drop_last();
        assert(by_offset(init)) by {
            assert forall|i: int, j: int| 0 <= i <= j < init.len() implies (
            #[trigger] init[i]).order_key() <= (#[trigger] init[j]).order_key() by {
                assert(list[i].order_key() <= list[j].order_key());
            }
        }
        insert_ordered_keeps_order(init, l);
        let r0 = insert_ordered(init, l);
        let r = r0.push(list.last());
        assert(list =~= init.push(list.last()));
        assert(r0.last().order_key() <= list.last().order_key()) by {
            if init.len() > 0 {
                assert(list[init.len() - 1].order_key() <= list[list.len() - 1].order_key());
            }
        }
        assert forall|i: int, j: int| 0 <= i <= j < r.len() implies (#[trigger] r[i]).order_key()
            <= (#[trigger] r[j]).order_key() by {
            if j == r0.len() && i < j {
                assert(r0[i].order_key() <= r0[r0.len() - 1].order_key());
            }
        }
        assert(r.to_multiset() =~= list.to_multiset().insert(l));
    }
}

/// Sorting orders the list and neither adds, drops nor changes a location.
pub proof fn offset_sorted_is_sorted(list: Seq<Loc>)
    ensures
        by_offset(offset_sorted(list)),
        offsets_below_max(list) ==> by_slot(offset_sorted(list)),
        offsets_below_max(list) ==> offsets_below_max(offset_sorted(list)),
        offset_sorted(list).len() == list.len(),
        offset_sorted(list).to_multiset() == list.to_multiset(),
    decreases list.len(),
{
    broadcast use vstd::seq_lib::group_to_multiset_ensures;

    if list.len() > 0 {
        offset_sorted_is_sorted(list.drop_last());
        insert_ordered_keeps_order(offset_sorted(list.drop_last()), list.last());
        assert(list =~= list.drop_last().push(list.last()));
    }
    if offsets_below_max(list) {
        let r = offset_sorted(list);
        assert forall|i: int| 0 <= i < r.len() implies (#[trigger] r[i]).file_offset != Some(
            u64::MAX,
        ) by {
            assert(r.to_multiset().count(r[i]) > 0) by {
                assert(r.contains(r[i]));
            }
            assert(list.to_multiset().count(r[i]) > 0);
            assert(list.contains(r[i]));
        }
        by_offset_is_by_slot(r);
    }
}

/// Sorting an ordered list changes nothing.
pub proof fn sorting_again_changes_nothing(list: Seq<Loc>)
    requires
        by_offset(list),
    ensures
        offset_sorted(list) == list,
    decreases list.len(),
{
    if list.len() > 0 {
        let init = list.drop_last();
        assert(by_offset(init)) by {
            assert forall|i: int, j: int| 0 <= i <= j < init.len() implies (
            #[trigger] init[i]).order_key() <= (#[trigger] init[j]).order_key() by {
                assert(list[i].order_key() <= list[j].order_key());
            }
        }
        sorting_again_changes_nothing(init);
        if init.len() > 0 {
            assert(list[init.len() - 1].order_key() <= list[list.len() - 1].order_key());
        }
        assert(init.push(list.last()) =~= list);
    }
}

proof fn insert_ordered_at(list: Seq<Loc>, l: Loc, k: int)
    requires
        by_offset(list),
        0 <= k <= list.len(),
        k > 0 ==> list[k - 1].order_key() <= l.order_key(),
        forall|i: int| k <= i < list.len() ==> (#[trigger] list[i]).order_key() > l.order_key(),
    ensures
        insert_ordered(list, l) == list.insert(k, l),
    decreases list.len(),
{
    if k == list.len() {
        assert(list.push(l) =~= list.insert(k, l));
    } else {
        assert(list[list.len() - 1].order_key() > l.order_key());
        let init = list.drop_last();
        assert(by_offset(init)) by {
            assert forall|i: int, j: int| 0 <= i <= j < init.len() implies (
            #[trigger] init[i]).order_key() <= (#[trigger] init[j]).order_key() by {
                assert(list[i].order_key() <= list[j].order_key());
            }
        }
        assert forall|i: int| k <= i < init.len() implies (#[trigger] init[i]).order_key()
            > l.order_key() by {
            assert(list[i].order_key() > l.order_key());
        }
        insert_ordered_at(init, l, k);
        assert(init.insert(k, l).push(list.last()) =~= list.insert(k, l));
    }
}

/// Sorts a list of locations by offset, keeping the order of equals.
pub fn sort_by_offset(list: Vec<ChunkLocation>) -> (r: Vec<ChunkLocation>)
    ensures
        locs(r@) == offset_sorted(locs(list@)),
{
    let mut out: Vec<ChunkLocation> = Vec::new();
    let mut rest: Vec<ChunkLocation> = list;
    let ghost all = locs(rest@);
    let n: usize = rest.len();
    let mut i: usize = 0;
    assert(all.take(0) =~= Seq::<Loc>::empty());
    assert(locs(out@) =~= Seq::<Loc>::empty());
    while i < n
        invariant
            i <= n,
            n == rest@.len(),
            locs(rest@) == all,
            locs(out@) == offset_sorted(all.take(i as int)),
        decreases n - i,
    {
        let l: ChunkLocation = rest[i].clone();
        let key: u64 = l.order_key();
        let ghost before = locs(out@);
        let mut k: usize = out.len();
        proof {
            offset_sorted_is_sorted(all.take(i as int));
            assert(all[i as int] == rest@[i as int]@);
        }
        while k > 0 && out[k - 1].order_key() > key
            invariant
                k <= out@.len(),
                locs(out@) == before,
                l@.order_key() == key,
                forall|j: int| k <= j < out@.len() ==> (#[trigger] before[j]).order_key() > key,
            decreases k,
        {
            k -= 1;
            assert(before[k as int] == out@[k as int]@);
        }
        proof {
            if k > 0 {
                assert(before[k - 1] == out@[k - 1]@);
            }
            insert_ordered_at(before, l@, k as int);
            assert(all.take(i + 1).drop_last() =~= all.take(i as int));
            assert(all.take(i + 1).last() == l@);
        }
        let ghost lv = l@;
        out.insert(k, l);
        assert(locs(out@) =~= before.insert(k as int, lv));
        i += 1;
    }
    assert(all.take(i as int) =~= all);
    out
}

} // verus!
