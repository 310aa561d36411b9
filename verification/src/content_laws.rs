//! What chunks hold: how content is split and named, and what patches and repairs make of it.
use vstd::bytes::{spec_u128_to_le_bytes, spec_u64_to_le_bytes};
use vstd::prelude::*;

use crate::chunk_map::FileEntry;
use crate::chunker::{is_chunking, joined_bytes, piece, pieces_are_full_sized};
use crate::digest::{blake3_digest, content_id_at, patch_token};
use crate::patch::restored;
use crate::patch_bytes::{grown, needed_len, patched};
use crate::repair_run::{
    can_be_checked, live_location, map_repaired, online_holders, with_chunks,
};
use crate::report_laws::filter_members;
use crate::requests::is_corrupt;
use crate::types::{ChunkId, ChunkLocation, FileId, FileRec, Loc, NodeId, NodeInfo, NodeStatus};

verus! {

/// A chunk is named by the digest of its file's sixteen bytes, most significant first, the eight
/// bytes of its place, least significant first, and its own bytes.
pub proof fn content_is_named_by_file_place_and_bytes(data: Seq<u8>, offset: u64, file: FileId)
    ensures
        content_id_at(data, offset, file).hash == blake3_digest(
            spec_u128_to_le_bytes(file.id).reverse() + spec_u64_to_le_bytes(offset) + data,
        ),
{
}

/// A token is the digest of the words `dfs-patch-token` and the delta's name.
pub proof fn a_token_is_made_of_the_delta(delta: ChunkId)
    ensures
        patch_token(delta).hash == blake3_digest(
            seq![
                100u8, 102u8, 115u8, 45u8, 112u8, 97u8, 116u8, 99u8, 104u8, 45u8, 116u8, 111u8,
                107u8, 101u8, 110u8,
            ] + delta.hash@,
        ),
{
}

/// Data is split in pieces of one size, the last one perhaps shorter: the byte at `i` of the piece
/// at `k` is that at `k * size + i` of the data, and the piece is named by its bytes at that place
/// behind `offset`.
pub proof fn each_piece_is_named_at_its_place(
    chunks: Seq<(ChunkId, Vec<u8>)>,
    data: Seq<u8>,
    size: nat,
    offset: u64,
    file: FileId,
    k: int,
    i: int,
)
    requires
        size > 0,
        is_chunking(chunks, data, size, offset, file),
        0 <= k < chunks.len(),
        0 <= i < chunks[k].1@.len(),
        offset + data.len() <= u64::MAX,
    ensures
        0 <= k * size + i < data.len(),
        chunks[k].1@[i] == data[k * size + i],
        chunks[k].1@.len() <= size,
        k + 1 < chunks.len() ==> chunks[k].1@.len() == size,
        k + 1 == chunks.len() ==> k * size + chunks[k].1@.len() == data.len(),
        chunks[k].0.hash == blake3_digest(
            spec_u128_to_le_bytes(file.id).reverse() + spec_u64_to_le_bytes(
                (offset + k * size) as u64,
            ) + chunks[k].1@,
        ),
{
    pieces_are_full_sized(chunks, data, size, offset, file, k);
    assert(chunks[k].1@ == piece(data, size, k));
    assert((k + 1) * size == k * size + size) by (nonlinear_arith);
    assert(k * size >= 0) by (nonlinear_arith)
        requires
            k >= 0,
    ;
    crate::chunker::piece_count_steps(data.len(), size, k);
    crate::chunker::piece_count_steps(data.len(), size, k + 1);
}

/// Pieces are put together one behind the other.
pub proof fn pieces_are_put_end_to_end(a: Seq<Seq<u8>>, b: Seq<Seq<u8>>, one: Seq<u8>)
    ensures
        joined_bytes(a + b) == joined_bytes(a) + joined_bytes(b),
        joined_bytes(seq![one]) == one,
        joined_bytes(Seq::empty()) == Seq::<u8>::empty(),
    decreases b.len(),
{
    assert(seq![one].drop_last() =~= Seq::<Seq<u8>>::empty());
    assert(joined_bytes(Seq::<Seq<u8>>::empty()) =~= Seq::<u8>::empty());
    assert(joined_bytes(seq![one]) =~= one);
    if b.len() == 0 {
        assert(a + b =~= a);
        assert(joined_bytes(a) + joined_bytes(b) =~= joined_bytes(a));
    } else {
        pieces_are_put_end_to_end(a, b.drop_last(), one);
        assert((a + b).drop_last() =~= a + b.drop_last());
        assert(joined_bytes(a + b) =~= joined_bytes(a) + joined_bytes(b));
    }
}

// ---------------------------------------------------------------------------
// Patches.
// ---------------------------------------------------------------------------

/// A patch puts its bytes at its place, and leaves every other byte. Content that it reaches past
/// the end of grows with it, with zeros between the two; no patches change nothing.
pub proof fn a_patch_writes_just_its_bytes(buf: Seq<u8>, at: usize, bytes: Seq<u8>, i: int)
    ensures
        ({
            let out = patched(buf, seq![(at, bytes)]);
            let end = at + bytes.len();
            &&& end <= buf.len() ==> out.len() == buf.len()
            &&& end > buf.len() ==> out.len() == end
            &&& at <= i < end ==> out[i] == bytes[i - at]
            &&& 0 <= i < buf.len() && !(at <= i < end) ==> out[i] == buf[i]
            &&& buf.len() <= i < at && bytes.len() > 0 ==> out[i] == 0
        }),
        patched(buf, Seq::empty()) == buf,
{
    let p = seq![(at, bytes)];
    assert(p.drop_last() =~= Seq::<(usize, Seq<u8>)>::empty());
    assert(p.last() == (at, bytes));
    assert(needed_len(buf.len(), p.drop_last()) == buf.len());
    assert(patched(buf, Seq::empty()) =~= buf);
    assert(crate::patch_bytes::byte_after(buf, p.drop_last(), i) == if 0 <= i < buf.len() {
        buf[i]
    } else {
        0
    });
}

/// Content grows for patches by zeros behind it, to where the furthest of them ends.
pub proof fn content_grows_to_the_furthest_patch(
    buf: Seq<u8>,
    patches: Seq<(usize, Seq<u8>)>,
    k: int,
    i: int,
)
    ensures
        grown(buf, patches).len() >= buf.len(),
        0 <= k < patches.len() ==> grown(buf, patches).len() >= patches[k].0 + patches[k].1.len(),
        grown(buf, patches).len() == buf.len() || exists|m: int|
            0 <= m < patches.len() && (#[trigger] patches[m]).0 + patches[m].1.len() == grown(
                buf,
                patches,
            ).len(),
        0 <= i < buf.len() ==> grown(buf, patches)[i] == buf[i],
        buf.len() <= i < grown(buf, patches).len() ==> grown(buf, patches)[i] == 0,
{
    furthest_end(buf.len(), patches, k);
}

proof fn furthest_end(len: nat, patches: Seq<(usize, Seq<u8>)>, k: int)
    ensures
        needed_len(len, patches) >= len,
        0 <= k < patches.len() ==> needed_len(len, patches) >= patches[k].0 + patches[k].1.len(),
        needed_len(len, patches) == len || exists|m: int|
            0 <= m < patches.len() && (#[trigger] patches[m]).0 + patches[m].1.len() == needed_len(
                len,
                patches,
            ),
    decreases patches.len(),
{
    if patches.len() > 0 {
        let init = patches.drop_last();
        let last = patches.len() - 1;
        furthest_end(len, init, k);
        assert(patches[last] == patches.last());
        if 0 <= k < init.len() {
            assert(init[k] == patches[k]);
        }
        if needed_len(len, patches) != len && needed_len(len, patches) == needed_len(len, init) {
            let m = choose|m: int|
                0 <= m < init.len() && (#[trigger] init[m]).0 + init[m].1.len() == needed_len(
                    len,
                    init,
                );
            assert(patches[m] == init[m]);
        }
    }
}

/// A chunk is restored by writing the old bytes back in order and cutting off what is too long.
pub proof fn a_restored_chunk_has_its_old_length(
    file: Seq<u8>,
    at: usize,
    bytes: Seq<u8>,
    cut_to: nat,
    i: int,
)
    requires
        cut_to <= file.len(),
        at + bytes.len() <= file.len(),
    ensures
        restored(file, seq![(at, bytes)], cut_to).len() == cut_to,
        0 <= i < cut_to && at <= i < at + bytes.len() ==> restored(
            file,
            seq![(at, bytes)],
            cut_to,
        )[i] == bytes[i - at],
        0 <= i < cut_to && !(at <= i < at + bytes.len()) ==> restored(
            file,
            seq![(at, bytes)],
            cut_to,
        )[i] == file[i],
        restored(file, Seq::empty(), cut_to) == file.take(cut_to as int),
{
    a_patch_writes_just_its_bytes(file, at, bytes, i);
}

// ---------------------------------------------------------------------------
// Repairs.
// ---------------------------------------------------------------------------

/// Bytes are corrupt just where their place and file are known and the digest of the three is not
/// the chunk's name.
pub proof fn bytes_are_judged_by_their_name(
    chunk: ChunkId,
    l: ChunkLocation,
    data: Seq<u8>,
)
    ensures
        !is_corrupt(chunk, None, data),
        l.file_offset is None || l.file_id is None ==> !is_corrupt(chunk, Some(l), data),
        l.file_offset is Some && l.file_id is Some ==> (is_corrupt(chunk, Some(l), data)
            <==> blake3_digest(
            spec_u128_to_le_bytes(l.file_id->0.id).reverse() + spec_u64_to_le_bytes(
                l.file_offset->0,
            ) + data,
        ) != chunk.hash),
{
}

/// Just the holders that are online are looked at, in order.
pub proof fn just_online_holders_are_looked_at(holders: Seq<NodeId>, nodes: Seq<NodeInfo>)
    ensures
        online_holders(holders, nodes) == holders.filter(
            |h: NodeId| exists|i: int|
                0 <= i < nodes.len() && (#[trigger] nodes[i]).id == h && nodes[i].status
                    == NodeStatus::Online,
        ),
    decreases holders.len(),
{
    reveal(Seq::filter);
    let online = |h: NodeId| exists|i: int|
        0 <= i < nodes.len() && (#[trigger] nodes[i]).id == h && nodes[i].status
            == NodeStatus::Online;
    if holders.len() > 0 {
        just_online_holders_are_looked_at(holders.drop_last(), nodes);
    }
    assert(holders.filter(online) =~= online_holders(holders, nodes));
}

/// A chunk is where its stored record says, if there is one, and where the file says otherwise;
/// its name is the file's either way.
pub proof fn the_stored_record_tells_where_a_chunk_is(inline: Loc, stored: Loc)
    ensures
        live_location(inline, None) == inline,
        live_location(inline, Some(stored)).chunk_id == inline.chunk_id,
        live_location(inline, Some(stored)) == (Loc { chunk_id: inline.chunk_id, ..stored }),
{
}

/// Repaired records replace the chunk map's entries of their files: a file's last record with
/// locations is its entry afterwards, and a file without one keeps its entry.
pub proof fn repaired_records_replace_entries(
    files: Map<u128, FileEntry>,
    records: Seq<FileRec>,
    i: int,
    f: u128,
)
    ensures
        0 <= i < records.len() && records[i].chunk_locations.len() > 0 && (forall|m: int|
            i < m < records.len() && (#[trigger] records[m]).id == records[i].id
                ==> records[m].chunk_locations.len() == 0) ==> map_repaired(
            files,
            records,
        ).dom().contains(records[i].id.id) && map_repaired(files, records)[records[i].id.id] == (
            records[i].chunk_locations,
            records[i].write_seq,
        ),
        (forall|m: int|
            0 <= m < records.len() && (#[trigger] records[m]).id.id == f
                ==> records[m].chunk_locations.len() == 0) ==> (map_repaired(
            files,
            records,
        ).dom().contains(f) <==> files.dom().contains(f)) && (files.dom().contains(f)
            ==> map_repaired(files, records)[f] == files[f]),
    decreases records.len(),
{
    if records.len() > 0 {
        let init = records.drop_last();
        let last = records.len() - 1;
        repaired_records_replace_entries(files, init, i, f);
        assert(records[last] == records.last());
        if 0 <= i < init.len() && records[i].chunk_locations.len() > 0 && (forall|m: int|
            i < m < records.len() && (#[trigger] records[m]).id == records[i].id
                ==> records[m].chunk_locations.len() == 0) {
            assert(init[i] == records[i]);
            assert forall|m: int|
                i < m < init.len() && (#[trigger] init[m]).id == init[i].id implies
                init[m].chunk_locations.len() == 0 by {
                assert(records[m].id == records[i].id);
            }
            if records[last].id.id == records[i].id.id {
                assert(records[last].id == records[i].id);
            }
        }
        if forall|m: int|
            0 <= m < records.len() && (#[trigger] records[m]).id.id == f
                ==> records[m].chunk_locations.len() == 0 {
            assert forall|m: int|
                0 <= m < init.len() && (#[trigger] init[m]).id.id == f implies
                init[m].chunk_locations.len() == 0 by {
                assert(records[m].id.id == f);
            }
            if records[last].id.id == f {
                assert(records[last].chunk_locations.len() == 0);
            }
        }
    }
}

/// Just the records that have locations are looked at, in order.
pub proof fn just_records_with_locations_are_looked_at(records: Seq<FileRec>)
    ensures
        with_chunks(records) == records.filter(|r: FileRec| r.chunk_locations.len() > 0),
    decreases records.len(),
{
    reveal(Seq::filter);
    if records.len() > 0 {
        just_records_with_locations_are_looked_at(records.drop_last());
    }
}

/// A chunk is checked just if its place in the file is known and one of its holders, by the stored
/// record if there is one, is online.
pub proof fn a_chunk_is_checked_where_someone_can_be_asked(
    inline: Loc,
    stored: Option<Loc>,
    holders: Seq<NodeId>,
    nodes: Seq<NodeInfo>,
)
    requires
        stored is Some ==> holders == stored->0.nodes,
        stored is None ==> holders == inline.nodes,
    ensures
        can_be_checked(inline, stored, nodes) <==> inline.file_offset is Some && exists|
            k: int,
            i: int,
        |
            0 <= k < holders.len() && 0 <= i < nodes.len() && #[trigger] holders[k] == (
            #[trigger] nodes[i]).id && nodes[i].status == NodeStatus::Online,
{
    just_online_holders_are_looked_at(holders, nodes);
    let online = |h: NodeId| exists|i: int|
        0 <= i < nodes.len() && (#[trigger] nodes[i]).id == h && nodes[i].status
            == NodeStatus::Online;
    let found = online_holders(holders, nodes);
    assert(found == holders.filter(online));
    if found.len() > 0 {
        filter_members(holders, online, found[0]);
        assert(found.contains(found[0]));
        let k = choose|k: int| 0 <= k < holders.len() && holders[k] == found[0];
        let i = choose|i: int|
            0 <= i < nodes.len() && (#[trigger] nodes[i]).id == found[0] && nodes[i].status
                == NodeStatus::Online;
        assert(holders[k] == nodes[i].id);
    }
    if exists|k: int, i: int|
        0 <= k < holders.len() && 0 <= i < nodes.len() && #[trigger] holders[k] == (
        #[trigger] nodes[i]).id && nodes[i].status == NodeStatus::Online {
        let (k, i) = choose|k: int, i: int|
            0 <= k < holders.len() && 0 <= i < nodes.len() && #[trigger] holders[k] == (
            #[trigger] nodes[i]).id && nodes[i].status == NodeStatus::Online;
        filter_members(holders, online, holders[k]);
        assert(nodes[i].id == holders[k]);
        assert(holders.contains(holders[k]));
        assert(found.contains(holders[k]));
    }
}

} // verus!
