//! What is kept of chunks on disk and in memory, and what is read back of it.
use vstd::prelude::*;
use vstd::utf8::encode_utf8;

use crate::cache::{place_of, place_of_is_place, stored, touched, value_of, without};
use crate::chunk_index::{ascending, page_of};
use crate::names::{is_temp_name, named_chunk};
use crate::report_laws::filter_members;
use crate::storage::{
    begins_within, chunks_named, count_bytes, count_class, count_files, counted, index_follows, range_end,
    Batching, DiskChange, DurabilityClass, FlushStep,
};
use crate::store_batch::{waits_until, without_more, Gathered, WorkerStep};
use crate::types::ChunkId;
use crate::watchdog::{seen, tick_for, Watch};

verus! {

// ---------------------------------------------------------------------------
// Making writes durable.
// ---------------------------------------------------------------------------

/// A batch is flushed at once if some request of it is a client's, and otherwise when its time is
/// up; until then it waits for just that time. Without a request there is nothing to wait for.
pub proof fn a_client_never_waits_for_a_batch(b: Batching, now_ms: u64)
    ensures
        b.batch.len() == 0 ==> b.next_step(now_ms) == FlushStep::Idle,
        (exists|i: int| 0 <= i < b.batch.len() && #[trigger] b.batch[i]
            == DurabilityClass::Foreground) ==> b.next_step(now_ms) == FlushStep::Flush,
        b.batch.len() > 0 && (forall|i: int|
            0 <= i < b.batch.len() ==> #[trigger] b.batch[i] == DurabilityClass::Background)
            ==> b.next_step(now_ms) == if now_ms < b.deadline_ms {
            FlushStep::WaitUntil(b.deadline_ms)
        } else {
            FlushStep::Flush
        },
{
    if exists|i: int|
        0 <= i < b.batch.len() && #[trigger] b.batch[i] == DurabilityClass::Foreground {
        let i = choose|i: int|
            0 <= i < b.batch.len() && #[trigger] b.batch[i] == DurabilityClass::Foreground;
        assert(b.batch.contains(b.batch[i]));
    }
}

/// A request joins the batch behind the others. The first one sets the time at which the batch is
/// flushed, the linger time from now, and no later one moves it.
pub proof fn the_first_request_sets_the_time(b: Batching, class: DurabilityClass, now_ms: u64)
    requires
        now_ms + b.linger_ms <= u64::MAX,
    ensures
        b.with_request(class, now_ms).batch == b.batch.push(class),
        b.batch.len() == 0 ==> b.with_request(class, now_ms).deadline_ms == now_ms + b.linger_ms,
        b.batch.len() > 0 ==> b.with_request(class, now_ms).deadline_ms == b.deadline_ms,
        b.with_swept(class).batch == b.batch.push(class),
        b.with_swept(class).deadline_ms == b.deadline_ms,
        b.with_request(class, now_ms) == (Batching {
            batch: b.with_request(class, now_ms).batch,
            deadline_ms: b.with_request(class, now_ms).deadline_ms,
            ..b
        }),
        b.with_swept(class) == (Batching { batch: b.with_swept(class).batch, ..b }),
{
}

/// A flush empties the batch and counts as one, with each of its requests under its own class.
pub proof fn a_flush_counts_its_requests(b: Batching)
    ensures
        b.after_flush().batch.len() == 0,
        b.after_flush().batches == b.batches + 1,
        b.after_flush().foreground == b.foreground + b.batch.filter(
            |c: DurabilityClass| c == DurabilityClass::Foreground,
        ).len(),
        b.after_flush().background == b.background + b.batch.filter(
            |c: DurabilityClass| c == DurabilityClass::Background,
        ).len(),
        b.after_flush().linger_ms == b.linger_ms,
{
    class_is_counted(b.batch, DurabilityClass::Foreground);
    class_is_counted(b.batch, DurabilityClass::Background);
    let fg = |c: DurabilityClass| c == DurabilityClass::Foreground;
    let bg = |c: DurabilityClass| c == DurabilityClass::Background;
    assert(b.batch.filter(fg).len() == count_class(b.batch, DurabilityClass::Foreground));
    assert(b.batch.filter(bg).len() == count_class(b.batch, DurabilityClass::Background));
}

proof fn class_is_counted(batch: Seq<DurabilityClass>, class: DurabilityClass)
    ensures
        class == DurabilityClass::Foreground ==> count_class(batch, class) == batch.filter(
            |c: DurabilityClass| c == DurabilityClass::Foreground,
        ).len(),
        class == DurabilityClass::Background ==> count_class(batch, class) == batch.filter(
            |c: DurabilityClass| c == DurabilityClass::Background,
        ).len(),
    decreases batch.len(),
{
    reveal(Seq::filter);
    if batch.len() > 0 {
        class_is_counted(batch.drop_last(), class);
    }
}

/// The worker that stores records looks for more while it batches and has less than two hundred
/// and fifty-six, and stores what it has otherwise.
pub proof fn a_full_batch_is_stored(g: Gathered)
    ensures
        g.step() == WorkerStep::Look <==> g.batching && g.items.len() < 256,
        g.step() == WorkerStep::Store <==> !g.batching || g.items.len() >= 256,
{
}

// ---------------------------------------------------------------------------
// Files.
// ---------------------------------------------------------------------------

/// The files of the chunk directories are counted, and their bytes added up, but for those that
/// are still being written; one of unknown size adds nothing.
pub proof fn finished_files_are_counted(files: Seq<(String, Option<u64>)>)
    ensures
        count_files(files) == files.filter(
            |f: (String, Option<u64>)| !is_temp_name(encode_utf8(f.0@)),
        ).len(),
        count_bytes(files) == files.filter(
            |f: (String, Option<u64>)| !is_temp_name(encode_utf8(f.0@)) && f.1 is Some,
        ).fold_left(0nat, |a: nat, f: (String, Option<u64>)| a + f.1->0 as nat),
    decreases files.len(),
{
    reveal(Seq::filter);
    if files.len() > 0 {
        finished_files_are_counted(files.drop_last());
        let known = |f: (String, Option<u64>)| !is_temp_name(encode_utf8(f.0@)) && f.1 is Some;
        let add_up = |a: nat, f: (String, Option<u64>)| a + f.1->0 as nat;
        let k0 = files.drop_last().filter(known);
        if known(files.last()) {
            assert(files.filter(known) == k0.push(files.last()));
            assert(k0.push(files.last()).drop_last() =~= k0);
            assert(k0.push(files.last()).fold_left(0nat, add_up) == k0.fold_left(0nat, add_up)
                + files.last().1->0 as nat);
        }
    }
}

/// The chunks on disk are just those that the name of some finished file stands for.
pub proof fn just_finished_chunk_files_are_listed(names: Seq<String>, chunk: ChunkId)
    ensures
        chunks_named(names).contains(chunk) <==> exists|i: int|
            0 <= i < names.len() && named_chunk(encode_utf8((#[trigger] names[i])@)) == Some(chunk)
                && !is_temp_name(encode_utf8(names[i]@)),
    decreases names.len(),
{
    if names.len() > 0 {
        let init = names.drop_last();
        let last = names.len() - 1;
        just_finished_chunk_files_are_listed(init, chunk);
        let c0 = chunks_named(init);
        let c = chunks_named(names);
        if c0.contains(chunk) {
            let k = choose|k: int| 0 <= k < c0.len() && c0[k] == chunk;
            assert(c[k] == chunk);
        }
        if c.contains(chunk) {
            let k = choose|k: int| 0 <= k < c.len() && c[k] == chunk;
            if k < c0.len() {
                assert(c0[k] == chunk);
                let i = choose|i: int|
                    0 <= i < init.len() && named_chunk(encode_utf8((#[trigger] init[i])@)) == Some(
                        chunk,
                    ) && !is_temp_name(encode_utf8(init[i]@));
                assert(names[i] == init[i]);
            } else {
                assert(names[last] == names.last());
            }
        }
        if exists|i: int|
            0 <= i < names.len() && named_chunk(encode_utf8((#[trigger] names[i])@)) == Some(chunk)
                && !is_temp_name(encode_utf8(names[i]@)) {
            let i = choose|i: int|
                0 <= i < names.len() && named_chunk(encode_utf8((#[trigger] names[i])@)) == Some(
                    chunk,
                ) && !is_temp_name(encode_utf8(names[i]@));
            if i < last {
                assert(init[i] == names[i]);
                assert(c0.contains(chunk));
            } else {
                assert(c[c.len() - 1] == chunk);
            }
        }
    }
}

/// A part of a chunk is as long as was asked for, or as what is left of the chunk where that is
/// less.
pub proof fn a_part_ends_with_the_chunk(len: usize, offset: usize, length: usize)
    requires
        offset <= len,
    ensures
        length <= len - offset ==> range_end(len, offset, length) - offset == length,
        length > len - offset ==> range_end(len, offset, length) == len,
{
}

/// The index follows the disk once it has been made: a written chunk is listed, a deleted one is
/// not, a rewritten one is listed under its new identity alone, and nothing else changes. It is
/// not made by the way.
pub proof fn the_index_lists_what_is_on_disk(
    before: Seq<ChunkId>,
    after: Option<Seq<ChunkId>>,
    a: ChunkId,
    b: ChunkId,
    c: ChunkId,
)
    ensures
        index_follows(Some(before), after, DiskChange::Written(a)) ==> after is Some && (
        after->0.contains(c) <==> before.contains(c) || c == a),
        index_follows(Some(before), after, DiskChange::Deleted(a)) ==> after is Some && (
        after->0.contains(c) <==> before.contains(c) && c != a),
        index_follows(Some(before), after, DiskChange::Rewritten(a, b)) ==> after is Some && (
        after->0.contains(c) <==> (before.contains(c) && c != a) || c == b),
        index_follows(None, after, DiskChange::Written(a)) ==> after is None,
        index_follows(None, after, DiskChange::Deleted(a)) ==> after is None,
        index_follows(None, after, DiskChange::Rewritten(a, b)) ==> after is None,
{
    broadcast use vstd::seq_lib::group_seq_properties;

    if after is Some {
        assert(after->0.to_set().contains(c) <==> after->0.contains(c));
        assert(before.to_set().contains(c) <==> before.contains(c));
    }
}

/// A deletion adds one to the count of its reason, which begins at one, and leaves the others.
pub proof fn deletions_are_counted_by_reason(
    counts: Map<Seq<char>, u64>,
    reason: Seq<char>,
    other: Seq<char>,
)
    ensures
        counted(counts, reason).dom() == counts.dom().insert(reason),
        !counts.dom().contains(reason) ==> counted(counts, reason)[reason] == 1,
        counts.dom().contains(reason) && counts[reason] < u64::MAX ==> counted(
            counts,
            reason,
        )[reason] == counts[reason] + 1,
        other != reason && counts.dom().contains(other) ==> counted(counts, reason)[other]
            == counts[other],
{
    assert(counted(counts, reason).dom() =~= counts.dom().insert(reason));
}

// ---------------------------------------------------------------------------
// The cache.
// ---------------------------------------------------------------------------

proof fn the_place_of_a_key(entries: Seq<([u8; 32], Seq<u8>)>, key: [u8; 32], j: int)
    requires
        0 <= j < entries.len(),
        entries[j].0 == key,
        forall|m: int, n: int|
            0 <= m < n < entries.len() ==> (#[trigger] entries[m]).0 != (#[trigger] entries[n]).0,
    ensures
        place_of(entries, key) == Some(j),
{
    place_of_is_place(entries, key);
    match place_of(entries, key) {
        Some(i) => {
            if i < j {
                assert(entries[i].0 != entries[j].0);
            }
            if j < i {
                assert(entries[j].0 != entries[i].0);
            }
        },
        None => {
            assert(entries[j].0 == key);
        },
    }
}

/// A chunk that is found in the cache comes to the front with its bytes, and the others stay
/// behind it in their order.
pub proof fn a_hit_comes_to_the_front(
    entries: Seq<([u8; 32], Seq<u8>)>,
    key: [u8; 32],
    j: int,
)
    requires
        0 <= j < entries.len(),
        entries[j].0 == key,
        forall|m: int, n: int|
            0 <= m < n < entries.len() ==> (#[trigger] entries[m]).0 != (#[trigger] entries[n]).0,
    ensures
        value_of(entries, key) == Some(entries[j].1),
        touched(entries, key).len() == entries.len(),
        touched(entries, key)[0] == entries[j],
        forall|i: int| 0 <= i < j ==> touched(entries, key)[i + 1] == #[trigger] entries[i],
        forall|i: int| j < i < entries.len() ==> touched(entries, key)[i] == #[trigger] entries[i],
{
    the_place_of_a_key(entries, key, j);
}

/// A chunk that is not in the cache is not found, and looking for it changes nothing.
pub proof fn a_miss_changes_nothing(entries: Seq<([u8; 32], Seq<u8>)>, key: [u8; 32])
    requires
        forall|m: int| 0 <= m < entries.len() ==> (#[trigger] entries[m]).0 != key,
    ensures
        value_of(entries, key) is None,
        touched(entries, key) == entries,
        without(entries, key) == entries,
{
    place_of_is_place(entries, key);
}

/// Storing a chunk that the cache does not hold puts it in front. While there is room all others
/// stay; a full cache loses just its last one, which was not used for longest.
pub proof fn a_full_cache_loses_the_least_used(
    entries: Seq<([u8; 32], Seq<u8>)>,
    limit: nat,
    key: [u8; 32],
    value: Seq<u8>,
)
    requires
        forall|m: int| 0 <= m < entries.len() ==> (#[trigger] entries[m]).0 != key,
        0 < limit,
        entries.len() <= limit,
    ensures
        stored(entries, limit, key, value)[0] == (key, value),
        entries.len() < limit ==> stored(entries, limit, key, value).len() == entries.len() + 1,
        entries.len() == limit ==> stored(entries, limit, key, value).len() == limit,
        forall|i: int|
            1 <= i < stored(entries, limit, key, value).len() ==> #[trigger] stored(
                entries,
                limit,
                key,
                value,
            )[i] == entries[i - 1],
{
    place_of_is_place(entries, key);
}

/// Storing a chunk again gives it its new bytes and puts it in front; nothing is lost.
pub proof fn a_stored_chunk_gets_its_new_bytes(
    entries: Seq<([u8; 32], Seq<u8>)>,
    limit: nat,
    key: [u8; 32],
    value: Seq<u8>,
    j: int,
)
    requires
        0 <= j < entries.len(),
        entries[j].0 == key,
        forall|m: int, n: int|
            0 <= m < n < entries.len() ==> (#[trigger] entries[m]).0 != (#[trigger] entries[n]).0,
    ensures
        stored(entries, limit, key, value).len() == entries.len(),
        stored(entries, limit, key, value)[0] == (key, value),
        forall|i: int|
            0 <= i < j ==> stored(entries, limit, key, value)[i + 1] == #[trigger] entries[i],
        forall|i: int|
            j < i < entries.len() ==> stored(entries, limit, key, value)[i]
                == #[trigger] entries[i],
        without(entries, key) == entries.remove(j),
{
    the_place_of_a_key(entries, key, j);
}

// ---------------------------------------------------------------------------
// Listing.
// ---------------------------------------------------------------------------

proof fn filter_keeps_order(list: Seq<ChunkId>, p: spec_fn(ChunkId) -> bool)
    requires
        ascending(list),
    ensures
        ascending(list.filter(p)),
    decreases list.len(),
{
    reveal(Seq::filter);
    if list.len() > 0 {
        let init = list.drop_last();
        assert forall|i: int, j: int| 0 <= i < j < init.len() implies (#[trigger] init[i]).lt(
            #[trigger] init[j],
        ) by {
            assert(list[i].lt(list[j]));
        }
        filter_keeps_order(init, p);
        let f0 = init.filter(p);
        let f = list.filter(p);
        assert forall|i: int, j: int| 0 <= i < j < f.len() implies (#[trigger] f[i]).lt(
            #[trigger] f[j],
        ) by {
            if j < f0.len() {
                assert(f0[i].lt(f0[j]));
            } else {
                filter_members(init, p, f0[i]);
                assert(f0.contains(f0[i]));
                let k = choose|k: int| 0 <= k < init.len() && init[k] == f0[i];
                assert(list[k].lt(list[list.len() - 1]));
            }
        }
    }
}

/// A page lists chunks of the index that come behind the cursor, in order, as many as were asked
/// for at most. It leaves one out only if it is full, and then the one left out comes behind all
/// that it lists.
pub proof fn a_page_lists_the_next_chunks(
    list: Seq<ChunkId>,
    cursor: Option<ChunkId>,
    limit: nat,
    c: ChunkId,
    i: int,
    j: int,
)
    requires
        ascending(list),
    ensures
        page_of(list, cursor, limit).len() <= limit,
        page_of(list, cursor, limit).contains(c) ==> list.contains(c) && (cursor is Some
            ==> cursor->0.lt(c)),
        0 <= i < j < page_of(list, cursor, limit).len() ==> page_of(list, cursor, limit)[i].lt(
            page_of(list, cursor, limit)[j],
        ),
        list.contains(c) && (cursor is Some ==> cursor->0.lt(c)) && !page_of(
            list,
            cursor,
            limit,
        ).contains(c) ==> page_of(list, cursor, limit).len() == limit && (0 <= i < page_of(
            list,
            cursor,
            limit,
        ).len() ==> page_of(list, cursor, limit)[i].lt(c)),
{
    let wanted = |x: ChunkId| crate::chunk_index::behind(cursor, x);
    let rest = list.filter(wanted);
    assert(rest == crate::chunk_index::beyond(list, cursor));
    filter_keeps_order(list, wanted);
    filter_members(list, wanted, c);
    let page = page_of(list, cursor, limit);
    if page.contains(c) {
        let k = choose|k: int| 0 <= k < page.len() && page[k] == c;
        assert(rest[k] == c);
    }
    if 0 <= i < j < page.len() {
        assert(rest[i].lt(rest[j]));
    }
    if rest.contains(c) && !page.contains(c) {
        let k = choose|k: int| 0 <= k < rest.len() && rest[k] == c;
        if k < page.len() {
            assert(page[k] == c);
        }
        if 0 <= i < page.len() {
            assert(rest[i].lt(rest[k]));
        }
    }
}

/// Chunks are listed by the first byte in which they differ, the lower one first.
pub proof fn chunks_are_listed_by_their_bytes(a: ChunkId, b: ChunkId, k: int)
    requires
        0 <= k < 32,
        forall|j: int| 0 <= j < k ==> #[trigger] a.hash@[j] == b.hash@[j],
        a.hash@[k] != b.hash@[k],
    ensures
        a.lt(b) <==> a.hash@[k] < b.hash@[k],
{
    reveal(ChunkId::lt);
    if a.lt(b) {
        let m = choose|m: int|
            #![trigger a.hash@[m]]
            0 <= m < 32 && a.hash@[m] < b.hash@[m] && (forall|j: int|
                0 <= j < m ==> a.hash@[j] == b.hash@[j]);
        if m < k {
            assert(a.hash@[m] == b.hash@[m]);
        }
        if k < m {
            assert(a.hash@[k] == b.hash@[k]);
        }
    }
}

/// The worker waits eight milliseconds for more, and stores what it has then.
pub proof fn a_worker_waits_eight_milliseconds(began_ms: u64, now_ms: u64)
    ensures
        without_more(waits_until(began_ms), now_ms) == WorkerStep::Store <==> now_ms - began_ms
            >= 8,
        without_more(waits_until(began_ms), now_ms) == WorkerStep::Pause <==> now_ms - began_ms < 8,
{
}

/// A request for a part of a chunk is served unless it begins at the end or behind it.
pub proof fn a_part_begins_within_the_chunk(len: usize, offset: usize)
    ensures
        !begins_within(len, offset) <==> len <= offset,
{
}

/// A watching thread looks every quarter of a second, or once where the time is shorter. It never
/// holds an operation that is done against its deadline, and ends the process just if one is not
/// done when it is reached.
pub proof fn just_a_late_operation_ends_the_process(
    limit_ms: u64,
    done: bool,
    deadline_ms: u64,
    tick_ms: u64,
    now_ms: u64,
)
    ensures
        limit_ms <= 250 ==> tick_for(limit_ms) == limit_ms,
        limit_ms > 250 ==> tick_for(limit_ms) == 250,
        seen(done, deadline_ms, tick_ms, now_ms) == Watch::Disarmed <==> done,
        seen(done, deadline_ms, tick_ms, now_ms) == Watch::Expire <==> !done && deadline_ms
            <= now_ms,
        seen(done, deadline_ms, tick_ms, now_ms) == Watch::Sleep(tick_ms) <==> !done && now_ms
            < deadline_ms,
{
}

} // verus!
