//! What writing, appending, patching and reading come to, in numbers, nodes and places.
use vstd::prelude::*;

use crate::delta::delta_decoding;
use crate::digest::{content_id_at, patch_token};
use crate::patch::{
    after_patch, carried_over, is_plan, is_rewrite, location_of_rewrite, outdated, remembered,
    takes_patch_seq, with_patch_seq, PatchPlan, PatchState, Rewrite,
};
use crate::transfer::{asked_from, is_outcome, made, next_to_ask};
use crate::types::{ChunkId, FileId, FileRec, Loc, NodeId, NodeInfo, NodeStatus};
use crate::write_path::{
    appended, appended_locations, bytes_to_go, first_failure, immediate, is_missing, is_online, needed,
    other_missing, read_candidates, room_in_chunk, total_size, written_location, AppendedChunk,
    WrittenChunk,
};

verus! {

/// A write waits for two replicas where more than two are kept, and for all of them otherwise;
/// but never for more nodes than were chosen.
pub proof fn a_write_waits_for_two_replicas(rf: usize, targets: nat)
    ensures
        rf >= 3 ==> immediate(rf) == 2,
        rf < 3 ==> immediate(rf) == rf,
        rf >= 3 && targets >= 2 ==> needed(rf, targets) == 2,
        rf >= 3 && targets < 2 ==> needed(rf, targets) == targets,
        rf < 3 && targets >= rf ==> needed(rf, targets) == rf,
        rf < 3 && targets < rf ==> needed(rf, targets) == targets,
{
}

/// A node records what it has written as it is: the chunk with its own hash as checksum, on those
/// nodes, for the file, with no place, time or sequence.
pub proof fn a_written_chunk_is_recorded_as_it_is(
    chunk: ChunkId,
    nodes: Seq<NodeId>,
    size: usize,
    file: FileId,
)
    ensures
        ({
            let l = written_location(chunk, nodes, size, file);
            &&& l.chunk_id == chunk
            &&& l.nodes == nodes
            &&& l.size == size
            &&& l.checksum == chunk.hash
            &&& l.file_id == Some(file)
            &&& l.file_offset is None
            &&& l.written_at is None
            &&& l.client_write_seq is None
        }),
{
}

proof fn first_failure_is_first(results: Seq<Result<WrittenChunk, String>>)
    ensures
        match first_failure(results) {
            Some(i) => 0 <= i < results.len() && results[i] is Err && forall|m: int|
                0 <= m < i ==> (#[trigger] results[m]) is Ok,
            None => forall|m: int| 0 <= m < results.len() ==> (#[trigger] results[m]) is Ok,
        },
    decreases results.len(),
{
    if results.len() > 0 {
        let init = results.drop_last();
        first_failure_is_first(init);
        assert forall|m: int| 0 <= m < init.len() implies init[m] == results[m] by {}
        match first_failure(init) {
            Some(i) => {
                assert forall|m: int| 0 <= m < i implies (#[trigger] results[m]) is Ok by {
                    assert(init[m] is Ok);
                }
            },
            None => {
                assert forall|m: int| 0 <= m < init.len() implies (#[trigger] results[m]) is Ok by {
                    assert(init[m] is Ok);
                }
            },
        }
    }
}

/// A write fails just where one of its chunks did, with the failure of the first that did;
/// otherwise it comes to what was written of each chunk, in order.
pub proof fn a_write_fails_with_its_first_failure(
    results: Seq<Result<WrittenChunk, String>>,
    r: Result<Vec<WrittenChunk>, String>,
    i: int,
)
    requires
        is_outcome(results, r),
    ensures
        r is Ok <==> forall|m: int| 0 <= m < results.len() ==> (#[trigger] results[m]) is Ok,
        0 <= i < results.len() && results[i] is Err && (forall|m: int|
            0 <= m < i ==> (#[trigger] results[m]) is Ok) ==> r is Err && r->Err_0
            == results[i]->Err_0,
        r is Ok ==> (r->Ok_0)@.len() == results.len(),
        r is Ok && 0 <= i < results.len() ==> (r->Ok_0)@[i] == results[i]->Ok_0,
{
    first_failure_is_first(results);
    match first_failure(results) {
        Some(k) => {
            assert(results[k] is Err);
            if 0 <= i < results.len() && results[i] is Err && forall|m: int|
                0 <= m < i ==> (#[trigger] results[m]) is Ok {
                if k < i {
                    assert(results[k] is Ok);
                }
            }
        },
        None => {},
    }
}

/// The room in a file's last chunk is what is left to the next multiple of the chunk size; a full
/// chunk, and an empty file, have none.
pub proof fn the_room_reaches_to_the_next_chunk(size: u64, chunk_size: u64)
    requires
        chunk_size > 0,
    ensures
        (size + room_in_chunk(size, chunk_size)) % (chunk_size as int) == 0,
        room_in_chunk(size, chunk_size) < chunk_size,
{
    let n = chunk_size as int;
    let m = size as int % n;
    vstd::arithmetic::div_mod::lemma_fundamental_div_mod(size as int, n);
    vstd::arithmetic::div_mod::lemma_mod_bound(size as int, n);
    if m != 0 {
        let q = size as int / n;
        assert(size + (n - m) == n * (q + 1)) by (nonlinear_arith)
            requires
                size as int == n * q + m,
        ;
        vstd::arithmetic::div_mod::lemma_mod_multiples_basic(q + 1, n);
        assert(n * (q + 1) == (q + 1) * n) by (nonlinear_arith);
    }
}

/// The size of chunks is that of those before some place and those from it on together, and the
/// size of one is its own.
pub proof fn sizes_add_up(a: Seq<AppendedChunk>, b: Seq<AppendedChunk>, c: AppendedChunk)
    ensures
        total_size(a + b) == total_size(a) + total_size(b),
        total_size(seq![c]) == c.size,
        total_size(Seq::empty()) == 0,
    decreases b.len(),
{
    assert(seq![c].drop_last() =~= Seq::<AppendedChunk>::empty());
    assert(total_size(Seq::<AppendedChunk>::empty()) == 0);
    if b.len() == 0 {
        assert(a + b =~= a);
    } else {
        sizes_add_up(a, b.drop_last(), c);
        assert((a + b).drop_last() =~= a + b.drop_last());
        assert((a + b).last() == b.last());
    }
}

proof fn appended_places(chunks: Seq<AppendedChunk>, base: int, file: FileId)
    ensures
        appended_locations(chunks, base, file).len() == chunks.len(),
        forall|i: int|
            0 <= i < chunks.len() ==> (#[trigger] appended_locations(chunks, base, file)[i])
                == (Loc {
                file_offset: Some((base + total_size(chunks.take(i))) as u64),
                ..written_location(chunks[i].chunk_id, chunks[i].nodes@, chunks[i].size, file)
            }),
    decreases chunks.len(),
{
    if chunks.len() > 0 {
        let init = chunks.drop_last();
        let last = chunks.len() - 1;
        appended_places(init, base, file);
        let a0 = appended_locations(init, base, file);
        let a = appended_locations(chunks, base, file);
        assert forall|i: int| 0 <= i < chunks.len() implies (#[trigger] a[i]) == (Loc {
            file_offset: Some((base + total_size(chunks.take(i))) as u64),
            ..written_location(chunks[i].chunk_id, chunks[i].nodes@, chunks[i].size, file)
        }) by {
            if i < last {
                assert(a[i] == a0[i]);
                assert(init.take(i) =~= chunks.take(i));
            } else {
                assert(chunks.take(last) =~= init);
            }
        }
    }
}

/// Appended chunks lie one behind the other: the first at `base`, and each further one where the
/// one before it ends. Each is recorded as it was written.
pub proof fn appended_chunks_lie_end_to_end(
    chunks: Seq<AppendedChunk>,
    base: u64,
    file: FileId,
    i: int,
)
    requires
        base + total_size(chunks) <= u64::MAX,
        0 <= i < chunks.len(),
    ensures
        ({
            let out = appended_locations(chunks, base as int, file);
            &&& out.len() == chunks.len()
            &&& out[0].file_offset == Some(base)
            &&& out[i].file_offset is Some
            &&& i + 1 < chunks.len() ==> out[i + 1].file_offset is Some && out[i
                + 1].file_offset->0 == out[i].file_offset->0 + chunks[i].size
            &&& i + 1 == chunks.len() ==> out[i].file_offset->0 + chunks[i].size == base
                + total_size(chunks)
            &&& out[i].chunk_id == chunks[i].chunk_id
            &&& out[i].nodes == chunks[i].nodes@
            &&& out[i].size == chunks[i].size
            &&& out[i].checksum == chunks[i].chunk_id.hash
            &&& out[i].file_id == Some(file)
            &&& out[i].written_at is None
            &&& out[i].client_write_seq is None
        }),
{
    appended_places(chunks, base as int, file);
    let c = chunks[i];
    assert(chunks.take(0) =~= Seq::<AppendedChunk>::empty());
    sizes_add_up(Seq::empty(), Seq::empty(), c);
    assert(chunks.take(i) + seq![c] =~= chunks.take(i + 1));
    sizes_add_up(chunks.take(i), seq![c], c);
    assert(chunks.take(i + 1) + chunks.skip(i + 1) =~= chunks);
    sizes_add_up(chunks.take(i + 1), chunks.skip(i + 1), c);
    assert(chunks.take(chunks.len() as int) =~= chunks);
}

/// An append adds its chunks behind those of the file. Where it took up the last chunk, that one
/// gives way to them, and they begin where it began, `tail_len` bytes before the end of the file;
/// otherwise they begin at the end. The file is longer by what is new, and all else of the record
/// stays but the time.
pub proof fn an_append_adds_at_the_end(
    rec: FileRec,
    took_tail: bool,
    tail_len: int,
    chunks: Seq<AppendedChunk>,
    now_secs: u64,
)
    requires
        0 <= tail_len <= rec.size,
        took_tail ==> rec.chunk_locations.len() > 0,
        rec.size - tail_len + total_size(chunks) <= u64::MAX,
    ensures
        ({
            let out = appended(rec, took_tail, tail_len, chunks, now_secs);
            let kept = if took_tail {
                rec.chunk_locations.len() - 1
            } else {
                rec.chunk_locations.len() as int
            };
            &&& out.size == rec.size - tail_len + total_size(chunks)
            &&& out.chunk_locations.len() == kept + chunks.len()
            &&& forall|i: int|
                0 <= i < kept ==> out.chunk_locations[i] == #[trigger] rec.chunk_locations[i]
            &&& chunks.len() > 0 ==> out.chunk_locations[kept].file_offset == Some(
                (rec.size - tail_len) as u64,
            )
            &&& forall|i: int|
                kept <= i < out.chunk_locations.len() ==> (
                #[trigger] out.chunk_locations[i]).chunk_id == chunks[i - kept].chunk_id
                    && out.chunk_locations[i].file_id == Some(rec.id)
            &&& chunks.len() > 0 ==> out.chunk_locations.last().file_offset->0
                + out.chunk_locations.last().size == out.size
            &&& out.modified_at == now_secs
            &&& out == (FileRec {
                chunk_locations: out.chunk_locations,
                size: out.size,
                modified_at: out.modified_at,
                ..rec
            })
        }),
{
    let base = (rec.size - tail_len) as u64;
    let added = appended_locations(chunks, base as int, rec.id);
    appended_places(chunks, base as int, rec.id);
    if chunks.len() > 0 {
        appended_chunks_lie_end_to_end(chunks, base, rec.id, 0);
        appended_chunks_lie_end_to_end(chunks, base, rec.id, chunks.len() - 1);
    }
    let out = appended(rec, took_tail, tail_len, chunks, now_secs);
    let kept = if took_tail {
        rec.chunk_locations.len() - 1
    } else {
        rec.chunk_locations.len() as int
    };
    assert forall|i: int| kept <= i < out.chunk_locations.len() implies (
    #[trigger] out.chunk_locations[i]).chunk_id == chunks[i - kept].chunk_id
        && out.chunk_locations[i].file_id == Some(rec.id) by {
        assert(out.chunk_locations[i] == added[i - kept]);
    }
}

/// A chunk is read from just those of its holders that are other nodes and online, in order.
pub proof fn a_chunk_is_read_from_other_online_holders(
    holders: Seq<NodeId>,
    local: NodeId,
    nodes: Seq<NodeInfo>,
)
    ensures
        read_candidates(holders, local, nodes) == holders.filter(
            |h: NodeId|
                h != local && exists|i: int|
                    0 <= i < nodes.len() && (#[trigger] nodes[i]).id == h && nodes[i].status
                        == NodeStatus::Online,
        ),
    decreases holders.len(),
{
    reveal(Seq::filter);
    let asked = |h: NodeId|
        h != local && exists|i: int|
            0 <= i < nodes.len() && (#[trigger] nodes[i]).id == h && nodes[i].status
                == NodeStatus::Online;
    if holders.len() > 0 {
        a_chunk_is_read_from_other_online_holders(holders.drop_last(), local, nodes);
    }
    assert(holders.filter(asked) =~= read_candidates(holders, local, nodes));
}

/// A chunk is held to be missing for five minutes from when it was found so.
pub proof fn a_missing_chunk_is_missing_for_five_minutes(
    entries: Seq<(ChunkId, u64)>,
    chunk: ChunkId,
    now_ms: u64,
)
    ensures
        is_missing(entries, chunk, now_ms) <==> exists|i: int|
            0 <= i < entries.len() && (#[trigger] entries[i]).0 == chunk && now_ms - entries[i].1
                < 5 * 60 * 1000,
{
    if exists|i: int|
        0 <= i < entries.len() && (#[trigger] entries[i]).0 == chunk && now_ms - entries[i].1
            < 5 * 60 * 1000 {
        let i = choose|i: int|
            0 <= i < entries.len() && (#[trigger] entries[i]).0 == chunk && now_ms - entries[i].1
                < 5 * 60 * 1000;
        assert(entries[i].0 == chunk);
    }
}

/// Noting a chunk as missing forgets its earlier entries and those older than five minutes.
pub proof fn old_missing_entries_are_forgotten(
    entries: Seq<(ChunkId, u64)>,
    chunk: ChunkId,
    now_ms: u64,
)
    ensures
        other_missing(entries, chunk, now_ms) == entries.filter(
            |e: (ChunkId, u64)| e.0 != chunk && now_ms - e.1 < 5 * 60 * 1000,
        ),
    decreases entries.len(),
{
    reveal(Seq::filter);
    if entries.len() > 0 {
        old_missing_entries_are_forgotten(entries.drop_last(), chunk, now_ms);
    }
}

/// The next holder to ask is the first from a place on that is another node and online; behind
/// the last one if there is none.
pub proof fn the_next_holder_is_the_first_online(
    holders: Seq<NodeId>,
    from: int,
    local: NodeId,
    nodes: Seq<NodeInfo>,
    m: int,
)
    requires
        0 <= from <= holders.len(),
    ensures
        ({
            let k = next_to_ask(holders, from, local, nodes);
            &&& from <= k <= holders.len()
            &&& k < holders.len() ==> holders[k] != local && exists|i: int|
                0 <= i < nodes.len() && (#[trigger] nodes[i]).id == holders[k] && nodes[i].status
                    == NodeStatus::Online
            &&& from <= m < k ==> holders[m] == local || forall|i: int|
                0 <= i < nodes.len() && (#[trigger] nodes[i]).id == holders[m] ==> nodes[i].status
                    != NodeStatus::Online
        }),
    decreases holders.len() - from,
{
    if from < holders.len() && !crate::transfer::is_asked(holders[from], local, nodes) {
        the_next_holder_is_the_first_online(holders, from + 1, local, nodes, m);
        if m == from && holders[m] != local {
            assert forall|i: int|
                0 <= i < nodes.len() && (#[trigger] nodes[i]).id == holders[m] implies
                nodes[i].status != NodeStatus::Online by {
                assert(!is_online(nodes, holders[m]));
            }
        }
    }
}

/// The holders that are asked one after the other are just the other nodes among them that are
/// online, in order.
pub proof fn holders_are_asked_in_turn(
    holders: Seq<NodeId>,
    from: int,
    local: NodeId,
    nodes: Seq<NodeInfo>,
    h: NodeId,
)
    requires
        0 <= from <= holders.len(),
    ensures
        asked_from(holders, from, local, nodes).contains(h) <==> h != local && (exists|k: int|
            from <= k < holders.len() && #[trigger] holders[k] == h) && exists|i: int|
            0 <= i < nodes.len() && (#[trigger] nodes[i]).id == h && nodes[i].status
                == NodeStatus::Online,
    decreases holders.len() - from,
{
    let k = next_to_ask(holders, from, local, nodes);
    the_next_holder_is_the_first_online(holders, from, local, nodes, from);
    let all = asked_from(holders, from, local, nodes);
    if k < holders.len() {
        holders_are_asked_in_turn(holders, k + 1, local, nodes, h);
        let rest = asked_from(holders, k + 1, local, nodes);
        assert(all == seq![holders[k]] + rest);
        if all.contains(h) {
            let p = choose|p: int| 0 <= p < all.len() && all[p] == h;
            if p == 0 {
                assert(holders[k] == h);
            } else {
                assert(rest[p - 1] == h);
                let q = choose|q: int| k + 1 <= q < holders.len() && #[trigger] holders[q] == h;
                assert(from <= q < holders.len() && holders[q] == h);
            }
        }
        if rest.contains(h) {
            let p = choose|p: int| 0 <= p < rest.len() && rest[p] == h;
            assert(all[p + 1] == h);
        }
        if holders[k] == h {
            assert(all[0] == h);
        }
    }
    if h != local && (exists|q: int| from <= q < holders.len() && #[trigger] holders[q] == h) && (
    exists|i: int|
        0 <= i < nodes.len() && (#[trigger] nodes[i]).id == h && nodes[i].status
            == NodeStatus::Online) {
        let q = choose|q: int| from <= q < holders.len() && #[trigger] holders[q] == h;
        the_next_holder_is_the_first_online(holders, from, local, nodes, q);
        let i = choose|i: int|
            0 <= i < nodes.len() && (#[trigger] nodes[i]).id == h && nodes[i].status
                == NodeStatus::Online;
        assert(nodes[i].id == holders[q]);
        assert(q >= k);
        if q > k {
            assert(k + 1 <= q < holders.len() && holders[q] == h);
        }
    }
}

/// Just the copies that were made are counted.
pub proof fn just_copies_that_were_made_count(copies: Seq<bool>)
    ensures
        made(copies) == copies.filter(|c: bool| c).len(),
    decreases copies.len(),
{
    reveal(Seq::filter);
    if copies.len() > 0 {
        just_copies_that_were_made_count(copies.drop_last());
    }
}

// ---------------------------------------------------------------------------
// Patches.
// ---------------------------------------------------------------------------

/// A rewritten chunk is where the chunk before it was, in node and place, by the record held of
/// that, or else by the seed. It has its own identity and size, was written now, and has no
/// client write sequence.
pub proof fn a_rewritten_chunk_stays_where_it_was(
    held: Option<Loc>,
    seed: Option<Loc>,
    new_chunk: ChunkId,
    size: usize,
    now_ms: u64,
    file: FileId,
)
    ensures
        ({
            let out = location_of_rewrite(held, seed, new_chunk, size, now_ms, file);
            &&& out is Some <==> held is Some || seed is Some
            &&& held is Some ==> out->0.nodes == held->0.nodes && out->0.file_offset
                == held->0.file_offset
            &&& held is None && seed is Some ==> out->0.nodes == seed->0.nodes
                && out->0.file_offset == seed->0.file_offset
            &&& out is Some ==> {
                &&& out->0.chunk_id == new_chunk
                &&& out->0.checksum == new_chunk.hash
                &&& out->0.size == size
                &&& out->0.written_at == Some(now_ms)
                &&& out->0.client_write_seq is None
                &&& out->0.file_id == Some(file)
            }
        }),
{
}

/// A location that is carried over to another chunk keeps its nodes and its place and nothing
/// else.
pub proof fn a_carried_over_location_keeps_its_place(
    from: Loc,
    new_chunk: ChunkId,
    size: usize,
    now_ms: u64,
    seq: Option<u64>,
    file: FileId,
)
    ensures
        ({
            let out = carried_over(from, new_chunk, size, now_ms, seq, file);
            &&& out.nodes == from.nodes
            &&& out.file_offset == from.file_offset
            &&& out.chunk_id == new_chunk
            &&& out.checksum == new_chunk.hash
            &&& out.size == size
            &&& out.written_at == Some(now_ms)
            &&& out.client_write_seq == seq
            &&& out.file_id == Some(file)
        }),
{
}

/// A patch's client write sequence counts just where the location has none, and changes nothing
/// else of it.
pub proof fn a_patch_sequence_fills_a_gap(l: Loc, seq: Option<u64>)
    ensures
        l.client_write_seq is Some ==> with_patch_seq(l, seq) == l,
        l.client_write_seq is None ==> with_patch_seq(l, seq).client_write_seq == seq,
        with_patch_seq(l, seq) == (Loc {
            client_write_seq: with_patch_seq(l, seq).client_write_seq,
            ..l
        }),
{
}

/// A client is sent to the current chunk just where it names another one that was not
/// consolidated into the current one.
pub proof fn a_client_is_current_with_the_chunk_or_its_token(
    current: Loc,
    named: ChunkId,
    state: Option<PatchState>,
)
    ensures
        current.chunk_id == named ==> !outdated(current, named, state),
        state == Some(PatchState::Folded(current.chunk_id)) ==> !outdated(current, named, state),
        current.chunk_id != named && state is None ==> outdated(current, named, state),
        current.chunk_id != named && state is Some && !(state->0 is Folded) ==> outdated(
            current,
            named,
            state,
        ),
        current.chunk_id != named && state is Some && state->0 is Folded && state->0->Folded_0
            != current.chunk_id ==> outdated(current, named, state),
{
}

/// The chunks patched last are remembered, sixty-four of them: the newest last, and of a full list
/// the oldest goes.
pub proof fn sixty_four_patched_chunks_are_remembered(queue: Seq<ChunkId>, chunk: ChunkId)
    ensures
        queue.len() < 64 ==> remembered(queue, chunk) == queue.push(chunk),
        queue.len() == 64 ==> remembered(queue, chunk) == queue.subrange(1, 64).push(chunk),
        queue.len() <= 64 ==> remembered(queue, chunk).len() <= 64,
{
    if queue.len() == 64 {
        assert(queue.drop_first() =~= queue.subrange(1, 64));
    }
}

/// The chunk that a patch was made on is remembered, and then the one it produced if that is
/// another.
pub proof fn a_patch_is_remembered_under_both_names(
    queue: Seq<ChunkId>,
    old_chunk: ChunkId,
    new_chunk: ChunkId,
)
    requires
        queue.len() <= 64,
    ensures
        after_patch(queue, old_chunk, new_chunk).last() == new_chunk,
        old_chunk != new_chunk ==> after_patch(queue, old_chunk, new_chunk)[after_patch(
            queue,
            old_chunk,
            new_chunk,
        ).len() - 2] == old_chunk,
        after_patch(queue, old_chunk, new_chunk).len() <= 64,
        old_chunk == new_chunk && queue.len() < 64 ==> after_patch(queue, old_chunk, new_chunk)
            == queue.push(new_chunk),
        old_chunk != new_chunk && queue.len() < 63 ==> after_patch(queue, old_chunk, new_chunk)
            == queue.push(old_chunk).push(new_chunk),
{
}

/// A location takes a patch's sequence over just if it has none and the patch has one.
pub proof fn a_sequence_is_taken_over_once(l: Loc, seq: Option<u64>)
    ensures
        takes_patch_seq(l, seq) <==> with_patch_seq(l, seq) != l,
{
}

/// A file that is appended nothing has at least one byte to go, and a whole chunk at a chunk's
/// end.
pub proof fn a_chunk_end_leaves_a_whole_chunk(size: u64, chunk_size: u64)
    requires
        chunk_size > 0,
    ensures
        1 <= bytes_to_go(size, chunk_size) <= chunk_size,
        (size + bytes_to_go(size, chunk_size)) % (chunk_size as int) == 0,
        bytes_to_go(size, chunk_size) == chunk_size <==> size as int % chunk_size as int == 0,
{
    let n = chunk_size as int;
    let m = size as int % n;
    vstd::arithmetic::div_mod::lemma_fundamental_div_mod(size as int, n);
    vstd::arithmetic::div_mod::lemma_mod_bound(size as int, n);
    let q = size as int / n;
    assert(size + (n - m) == n * (q + 1)) by (nonlinear_arith)
        requires
            size as int == n * q + m,
    ;
    vstd::arithmetic::div_mod::lemma_mod_multiples_basic(q + 1, n);
    assert(n * (q + 1) == (q + 1) * n) by (nonlinear_arith);
}

/// A rewritten chunk holds what the patches make of the old bytes and is named by that at its
/// place. The way back is kept just if the bytes or the name changed.
pub proof fn a_rewrite_holds_the_patched_bytes(
    r: Rewrite,
    base: Seq<u8>,
    at: usize,
    bytes: Seq<u8>,
    old_chunk: ChunkId,
    offset: u64,
    file: FileId,
    i: int,
)
    requires
        is_rewrite(r, base, seq![(at, bytes)], old_chunk, offset, file),
    ensures
        at <= i < at + bytes.len() ==> r.content@[i] == bytes[i - at],
        0 <= i < base.len() && !(at <= i < at + bytes.len()) ==> r.content@[i] == base[i],
        r.size == r.content@.len(),
        at + bytes.len() <= base.len() ==> r.size == base.len(),
        at + bytes.len() > base.len() ==> r.size == at + bytes.len(),
        r.new_chunk_id == content_id_at(r.content@, offset, file),
        r.journal is Some <==> r.new_chunk_id != old_chunk || r.content@ != base,
        r.journal is Some ==> (r.journal->0).old_chunk_id == old_chunk && (
        r.journal->0).new_chunk_id == r.new_chunk_id && (r.journal->0).old_len == base.len(),
{
    crate::content_laws::a_patch_writes_just_its_bytes(base, at, bytes, i);
}

/// A planned patch is kept as a delta that reads back as its patches, under a token made of the
/// delta's name, and has the size that the base comes to with it.
pub proof fn a_planned_patch_reads_back(
    plan: PatchPlan,
    file: FileId,
    offset: u64,
    at: usize,
    bytes: Seq<u8>,
    base_size: usize,
)
    requires
        is_plan(plan, file, offset, seq![(at, bytes)], base_size),
    ensures
        delta_decoding(plan.delta_bytes@) == Ok::<Seq<(usize, Seq<u8>)>, Seq<char>>(
            seq![(at, bytes)],
        ),
        plan.delta_chunk_id == content_id_at(plan.delta_bytes@, offset, file),
        plan.public_token == patch_token(plan.delta_chunk_id),
        at + bytes.len() <= base_size ==> plan.size == base_size,
        at + bytes.len() > base_size ==> plan.size == at + bytes.len(),
{
    let p = seq![(at, bytes)];
    assert(p.drop_last() =~= Seq::<(usize, Seq<u8>)>::empty());
    assert(crate::patch_bytes::needed_len(base_size as nat, p.drop_last()) == base_size);
}

} // verus!
