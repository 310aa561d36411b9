//! Writing, appending to and reading files.
use crate::metadata::{failed, Lookup};
use crate::protocol::Response;
use crate::text::{decimal, decimal_text, join, join_number};
use crate::types::{
    clone_locs, locs, ChunkId, ChunkLocation, ErrorCode, FileId, FileMetadata, FileRec, Loc,
    NodeId, NodeInfo, NodeStatus,
};
use vstd::prelude::*;

verus! {

// ---------------------------------------------------------------------------
// Quorums.
// ---------------------------------------------------------------------------

/// How many replicas a write waits for: two where three or more are kept, all of them otherwise.
pub open spec fn immediate(rf: usize) -> usize {
    if rf >= 3 {
        2
    } else {
        rf
    }
}

pub fn immediate_replicas(rf: usize) -> (r: usize)
    ensures
        r == immediate(rf),
        r <= rf,
{
    if rf >= 3 {
        2
    } else {
        rf
    }
}

/// How many of the nodes chosen for a chunk must have it: as many as a write waits for, or all
/// of them where there are fewer.
pub open spec fn needed(rf: usize, targets: nat) -> usize {
    if targets <= immediate(rf) {
        targets as usize
    } else {
        immediate(rf)
    }
}

/// The nodes that a write waits for.
pub open spec fn waited_for(targets: Seq<NodeId>, rf: usize) -> Seq<NodeId> {
    targets.take(needed(rf, targets.len()) as int)
}

/// The nodes that a write leaves to the background.
pub open spec fn left_behind(targets: Seq<NodeId>, rf: usize) -> Seq<NodeId> {
    targets.skip(needed(rf, targets.len()) as int)
}

/// The nodes that a write waits for, and those that it leaves to the background: the first ones
/// of the targets, and the rest.
pub fn quorum_nodes(targets: &Vec<NodeId>, rf: usize) -> (r: (Vec<NodeId>, Vec<NodeId>))
    ensures
        r.0@ == targets@.take(needed(rf, targets@.len()) as int),
        r.1@ == targets@.skip(needed(rf, targets@.len()) as int),
        r.0@ == waited_for(targets@, rf),
        r.1@ == left_behind(targets@, rf),
{
    let k: usize = if targets.len() <= immediate_replicas(rf) {
        targets.len()
    } else {
        immediate_replicas(rf)
    };
    let mut first: Vec<NodeId> = targets.clone();
    let rest: Vec<NodeId> = first.split_off(k);
    assert(first@ =~= targets@.take(k as int));
    assert(rest@ =~= targets@.skip(k as int));
    (first, rest)
}

/// The text of a write that reached too few nodes.
pub open spec fn quorum_text(chunk_name: Seq<char>, reached: usize, quorum: usize) -> Seq<char> {
    "Failed to achieve quorum for chunk "@ + chunk_name + " ("@ + decimal(reached as nat) + "/"@
        + decimal(quorum as nat) + ")"@
}

fn quorum_failure(chunk_name: &str, reached: usize, quorum: usize) -> (r: String)
    ensures
        r@ == quorum_text(chunk_name@, reached, quorum),
{
    let mut s: String = join("Failed to achieve quorum for chunk ", chunk_name);
    s.append(" (");
    s.append(decimal_text(reached as u64).as_str());
    s.append("/");
    s.append(decimal_text(quorum as u64).as_str());
    s.append(")");
    s
}

/// A location that a node records for what it has written, without a place in the file.
pub open spec fn written_location(
    chunk: ChunkId,
    nodes: Seq<NodeId>,
    size: usize,
    file: FileId,
) -> Loc {
    Loc {
        chunk_id: chunk,
        nodes: nodes,
        size: size,
        checksum: chunk.hash,
        file_offset: None,
        written_at: None,
        client_write_seq: None,
        file_id: Some(file),
    }
}

pub(crate) fn new_location(
    chunk: ChunkId,
    nodes: Vec<NodeId>,
    size: usize,
    file_offset: Option<u64>,
    file: FileId,
) -> (r: ChunkLocation)
    ensures
        r@ == (Loc { file_offset: file_offset, ..written_location(chunk, nodes@, size, file) }),
{
    ChunkLocation {
        chunk_id: chunk,
        nodes,
        size,
        checksum: chunk.hash,
        file_offset,
        written_at: None,
        client_write_seq: None,
        file_id: Some(file),
    }
}

/// A chunk counts as written.
pub open spec fn is_written(targets: nat, reached: usize, rf: usize) -> bool {
    targets > 0 && reached >= needed(rf, targets)
}

/// What came of writing one chunk: the location to record, naming every target, or why the write
/// failed. `targets` are the nodes chosen for the chunk, `reached` how many of those that the
/// write waits for have it.
pub fn write_data_chunk(
    chunk_id: ChunkId,
    chunk_name: &str,
    size: usize,
    targets: Vec<NodeId>,
    reached: usize,
    rf: usize,
    file_id: FileId,
) -> (r: Result<ChunkLocation, String>)
    ensures
        targets@.len() == 0 ==> r is Err && r->Err_0@ == "No nodes available for chunk "@
            + chunk_name@,
        targets@.len() > 0 && reached < needed(rf, targets@.len()) ==> r is Err && r->Err_0@
            == quorum_text(chunk_name@, reached, needed(rf, targets@.len())),
        targets@.len() > 0 && reached >= needed(rf, targets@.len()) ==> r is Ok && r->Ok_0@
            == written_location(chunk_id, targets@, size, file_id),
        r is Ok <==> is_written(targets@.len(), reached, rf),
{
    if targets.len() == 0 {
        return Err(join("No nodes available for chunk ", chunk_name));
    }
    let quorum: usize = if targets.len() <= immediate_replicas(rf) {
        targets.len()
    } else {
        immediate_replicas(rf)
    };
    if reached < quorum {
        return Err(quorum_failure(chunk_name, reached, quorum));
    }
    Ok(new_location(chunk_id, targets, size, None, file_id))
}

/// The location that a node records for a chunk it keeps by itself.
pub fn local_location(chunk_id: ChunkId, size: usize, local: NodeId, file_id: FileId) -> (r:
    ChunkLocation)
    ensures
        r@ == written_location(chunk_id, seq![local], size, file_id),
{
    let nodes: Vec<NodeId> = vec![local];
    assert(nodes@ =~= seq![local]);
    new_location(chunk_id, nodes, size, None, file_id)
}

/// A chunk that was written: its identity, its size, and the nodes that it went to.
#[derive(Debug)]
pub struct WrittenChunk {
    pub chunk_id: ChunkId,
    pub size: u64,
    pub nodes: Vec<NodeId>,
}

/// The place of the first chunk that failed.
pub open spec fn first_failure(results: Seq<Result<WrittenChunk, String>>) -> Option<int>
    decreases results.len(),
{
    if results.len() == 0 {
        None
    } else {
        match first_failure(results.drop_last()) {
            Some(i) => Some(i),
            None => if results.last() is Err {
                Some(results.len() - 1)
            } else {
                None
            },
        }
    }
}

/// The reply to writing a file: what was written, chunk by chunk, or why that failed.
pub fn write_file_response(result: Result<Vec<WrittenChunk>, String>) -> (r: Response)
    ensures
        match result {
            Err(why) => r.refuses("Failed to write file: "@ + why@, ErrorCode::InternalError),
            Ok(list) => match r {
                Response::ChunkIds { chunk_ids, chunk_sizes, replica_nodes_per_chunk } => {
                    &&& chunk_ids@ == list@.map_values(|w: WrittenChunk| w.chunk_id)
                    &&& chunk_sizes@ == list@.map_values(|w: WrittenChunk| w.size)
                    &&& replica_nodes_per_chunk@.len() == list@.len()
                    &&& forall|k: int|
                        0 <= k < list@.len() ==> (#[trigger] replica_nodes_per_chunk@[k])@
                            == list@[k].nodes@
                },
                _ => false,
            },
        },
{
    let list: Vec<WrittenChunk> = match result {
        Ok(list) => list,
        Err(why) => {
            return failed("Failed to write file: ", why.as_str());
        },
    };
    let mut chunk_ids: Vec<ChunkId> = Vec::new();
    let mut chunk_sizes: Vec<u64> = Vec::new();
    let mut replica_nodes_per_chunk: Vec<Vec<NodeId>> = Vec::new();
    let mut i: usize = 0;
    while i < list.len()
        invariant
            i <= list@.len(),
            chunk_ids@ =~= list@.map_values(|w: WrittenChunk| w.chunk_id).take(i as int),
            chunk_sizes@ =~= list@.map_values(|w: WrittenChunk| w.size).take(i as int),
            replica_nodes_per_chunk@.len() == i,
            forall|k: int|
                0 <= k < i ==> (#[trigger] replica_nodes_per_chunk@[k])@ == list@[k].nodes@,
        decreases list@.len() - i,
    {
        let w: &WrittenChunk = &list[i];
        chunk_ids.push(w.chunk_id);
        chunk_sizes.push(w.size);
        replica_nodes_per_chunk.push(w.nodes.clone());
        i += 1;
    }
    Response::ChunkIds { chunk_ids, chunk_sizes, replica_nodes_per_chunk }
}

// ---------------------------------------------------------------------------
// Appending.
// ---------------------------------------------------------------------------

/// What an append starts from.
#[derive(Debug)]
pub struct AppendStart {
    pub metadata: FileMetadata,
    /// The last chunk, if the file ends in the middle of it: it is read and written anew.
    pub tail: Option<ChunkId>,
}

/// The file can be appended to where the client thinks that it ends.
pub open spec fn can_append(rec: FileRec, expected_offset: u64, chunk_size: u64) -> bool {
    rec.size == expected_offset && (rec.size % chunk_size == 0 || rec.chunk_locations.len() > 0)
}

/// The chunk that an append takes up.
pub open spec fn tail_chunk(rec: FileRec, chunk_size: u64) -> Option<ChunkId> {
    if rec.size % chunk_size == 0 {
        None
    } else {
        Some(rec.chunk_locations.last().chunk_id)
    }
}

/// Decides on an append. The file must be as long as the client thinks; if it ends within a
/// chunk, that chunk must be known.
pub fn append_admission(
    lookup: Lookup,
    file_name: &str,
    expected_offset: u64,
    chunk_size: u64,
) -> (r: Result<AppendStart, Response>)
    requires
        chunk_size > 0,
    ensures
        match lookup {
            Lookup::Missing => r is Err && r->Err_0.refuses(
                "File not found: "@ + file_name@,
                ErrorCode::NotFound,
            ),
            Lookup::Failed(why) => r is Err && r->Err_0.refuses(
                "Failed to read metadata: "@ + why@,
                ErrorCode::InternalError,
            ),
            Lookup::Found(m) => if m@.size != expected_offset {
                r is Err && r->Err_0.refuses(
                    "Offset mismatch: expected "@ + decimal(expected_offset as nat)
                        + " but file is "@ + decimal(m@.size as nat) + " bytes"@,
                    ErrorCode::OffsetMismatch,
                )
            } else if m@.size % chunk_size == 0 {
                r is Ok && (r->Ok_0).metadata@ == m@ && (r->Ok_0).tail is None
            } else if m@.chunk_locations.len() == 0 {
                r is Err && r->Err_0.refuses(
                    "File metadata has no chunk locations"@,
                    ErrorCode::InternalError,
                )
            } else {
                r is Ok && (r->Ok_0).metadata@ == m@ && (r->Ok_0).tail == Some(
                    m@.chunk_locations.last().chunk_id,
                )
            },
        },
        r is Ok <==> lookup is Found && can_append(lookup->Found_0@, expected_offset, chunk_size),
        r is Ok ==> (r->Ok_0).metadata@ == lookup->Found_0@ && (r->Ok_0).tail == tail_chunk(
            lookup->Found_0@,
            chunk_size,
        ),
{
    match lookup {
        Lookup::Missing => Err(
            Response::refusal(join("File not found: ", file_name), ErrorCode::NotFound),
        ),
        Lookup::Failed(why) => Err(failed("Failed to read metadata: ", why.as_str())),
        Lookup::Found(m) => {
            if m.size != expected_offset {
                let mut text: String = join_number(
                    "Offset mismatch: expected ",
                    expected_offset,
                    " but file is ",
                );
                text.append(decimal_text(m.size).as_str());
                text.append(" bytes");
                return Err(Response::refusal(text, ErrorCode::OffsetMismatch));
            }
            if m.size % chunk_size == 0 {
                return Ok(AppendStart { metadata: m, tail: None });
            }
            let n: usize = m.chunk_locations.len();
            if n == 0 {
                return Err(
                    Response::refusal(
                        "File metadata has no chunk locations".to_owned(),
                        ErrorCode::InternalError,
                    ),
                );
            }
            let tail: ChunkId = m.chunk_locations[n - 1].chunk_id;
            assert(m@.chunk_locations.last() == m.chunk_locations@[n - 1]@);
            Ok(AppendStart { metadata: m, tail: Some(tail) })
        },
    }
}

/// The data that an append writes: the tail that it takes up, and what is new.
pub fn append_data(tail: Option<Vec<u8>>, new_data: Vec<u8>) -> (r: (Vec<u8>, u64))
    ensures
        r.0@ == (match tail {
            Some(t) => t@ + new_data@,
            None => new_data@,
        }),
        r.1 == (match tail {
            Some(t) => t@.len(),
            None => 0,
        }),
{
    match tail {
        Some(t) => {
            let actual: u64 = t.len() as u64;
            let mut combined: Vec<u8> = t;
            let ghost tv = combined@;
            combined.extend_from_slice(new_data.as_slice());
            assert(combined@ =~= tv + new_data@);
            (combined, actual)
        },
        None => (new_data, 0),
    }
}

/// How many bytes fit into the last chunk of a file of this size: none once it is full.
pub open spec fn room_in_chunk(size: u64, chunk_size: u64) -> u64 {
    if size % chunk_size == 0 {
        0
    } else {
        (chunk_size - size % chunk_size) as u64
    }
}

/// How many bytes a file has to go to the end of a chunk: a whole one at a chunk's end.
pub open spec fn bytes_to_go(size: u64, chunk_size: u64) -> int {
    chunk_size - size % chunk_size
}

/// The reply to an append of nothing: the file as it is. A file that ends on a chunk's end has a
/// whole chunk to go.
pub fn append_nothing(metadata: FileMetadata, chunk_size: u64) -> (r: Response)
    requires
        chunk_size > 0,
    ensures
        match r {
            Response::AppendFileResult { metadata: m, remaining_in_chunk } => m@ == metadata@
                && remaining_in_chunk == chunk_size - metadata@.size % chunk_size,
            _ => false,
        },
        match r {
            Response::AppendFileResult { metadata: m, remaining_in_chunk } => remaining_in_chunk
                == bytes_to_go(metadata@.size, chunk_size),
            _ => false,
        },
{
    let remaining_in_chunk: u64 = chunk_size - (metadata.size % chunk_size);
    Response::AppendFileResult { metadata, remaining_in_chunk }
}

/// A chunk of an append counts as written.
pub open spec fn append_is_written(targets: nat, succeeded: nat, rf: usize) -> bool {
    targets > 0 && succeeded >= immediate(rf)
}

/// What came of writing one chunk of an append: the nodes that have it, or the refusal.
pub fn append_quorum(
    chunk_name: &str,
    targets: &Vec<NodeId>,
    succeeded: Vec<NodeId>,
    rf: usize,
) -> (r: Result<Vec<NodeId>, Response>)
    ensures
        targets@.len() == 0 ==> r is Err && r->Err_0.refuses(
            "No nodes available for chunk replication"@,
            ErrorCode::IOError,
        ),
        targets@.len() > 0 && succeeded@.len() < immediate(rf) ==> r is Err && r->Err_0.refuses(
            quorum_text(chunk_name@, succeeded@.len() as usize, immediate(rf)),
            ErrorCode::IOError,
        ),
        targets@.len() > 0 && succeeded@.len() >= immediate(rf) ==> r is Ok && (r->Ok_0)@
            == succeeded@,
        r is Ok <==> append_is_written(targets@.len(), succeeded@.len(), rf),
{
    if targets.len() == 0 {
        return Err(
            Response::refusal(
                "No nodes available for chunk replication".to_owned(),
                ErrorCode::IOError,
            ),
        );
    }
    let quorum: usize = immediate_replicas(rf);
    if succeeded.len() < quorum {
        return Err(
            Response::refusal(
                quorum_failure(chunk_name, succeeded.len(), quorum),
                ErrorCode::IOError,
            ),
        );
    }
    Ok(succeeded)
}

/// A chunk that an append has written.
#[derive(Debug)]
pub struct AppendedChunk {
    pub chunk_id: ChunkId,
    pub size: usize,
    pub nodes: Vec<NodeId>,
}

/// The bytes of chunks, added up.
pub open spec fn total_size(chunks: Seq<AppendedChunk>) -> nat
    decreases chunks.len(),
{
    if chunks.len() == 0 {
        0
    } else {
        total_size(chunks.drop_last()) + chunks.last().size as nat
    }
}

/// The locations of an append's chunks, one behind the other from `base` on.
pub open spec fn appended_locations(
    chunks: Seq<AppendedChunk>,
    base: int,
    file: FileId,
) -> Seq<Loc>
    decreases chunks.len(),
{
    if chunks.len() == 0 {
        Seq::empty()
    } else {
        let last = chunks.last();
        appended_locations(chunks.drop_last(), base, file).push(
            Loc {
                file_offset: Some((base + total_size(chunks.drop_last())) as u64),
                ..written_location(last.chunk_id, last.nodes@, last.size, file)
            },
        )
    }
}

proof fn total_size_grows(chunks: Seq<AppendedChunk>, k: int)
    requires
        0 <= k <= chunks.len(),
    ensures
        total_size(chunks.take(k)) <= total_size(chunks),
    decreases chunks.len() - k,
{
    if k == chunks.len() {
        assert(chunks.take(k) =~= chunks);
    } else {
        assert(chunks.take(k + 1).drop_last() =~= chunks.take(k));
        total_size_grows(chunks, k + 1);
    }
}

/// The file after an append: the chunk that was taken up gives way to the new ones, and the file
/// is longer by what is new.
pub open spec fn appended(
    rec: FileRec,
    took_tail: bool,
    tail_len: int,
    chunks: Seq<AppendedChunk>,
    now_secs: u64,
) -> FileRec {
    FileRec {
        chunk_locations: (if took_tail {
            rec.chunk_locations.drop_last()
        } else {
            rec.chunk_locations
        }) + appended_locations(chunks, rec.size - tail_len, rec.id),
        size: (rec.size + total_size(chunks) - tail_len) as u64,
        modified_at: now_secs,
        ..rec
    }
}

/// Finishes an append: the file's record, and how many bytes its last chunk has room for.
/// `tail_len` is how much of the written data was in the file already; what was read from disk
/// counts, not what the record said.
pub fn finish_append(
    metadata: FileMetadata,
    took_tail: bool,
    tail_len: u64,
    chunks: &Vec<AppendedChunk>,
    chunk_size: u64,
    now_secs: u64,
) -> (r: (FileMetadata, u64))
    requires
        chunk_size > 0,
        took_tail ==> metadata@.chunk_locations.len() > 0,
        tail_len <= metadata@.size,
        tail_len <= total_size(chunks@),
        metadata@.size - tail_len + total_size(chunks@) <= u64::MAX,
    ensures
        r.0@ == appended(metadata@, took_tail, tail_len as int, chunks@, now_secs),
        r.1 == room_in_chunk(r.0@.size, chunk_size),
{
    let ghost rec = metadata@;
    let file: FileId = metadata.id;
    let base: u64 = metadata.size - tail_len;
    let mut m: FileMetadata = metadata;
    let mut list: Vec<ChunkLocation> = clone_locs(&m.chunk_locations);
    if took_tail {
        let _ = list.pop();
        assert(locs(list@) =~= rec.chunk_locations.drop_last());
    }
    let ghost kept = locs(list@);
    let mut at: u64 = base;
    let mut i: usize = 0;
    assert(chunks@.take(0) =~= Seq::<AppendedChunk>::empty());
    assert(locs(list@) =~= kept + appended_locations(chunks@.take(0), base as int, file));
    while i < chunks.len()
        invariant
            i <= chunks@.len(),
            base + total_size(chunks@) <= u64::MAX,
            at == base + total_size(chunks@.take(i as int)),
            locs(list@) == kept + appended_locations(chunks@.take(i as int), base as int, file),
        decreases chunks@.len() - i,
    {
        proof {
            assert(chunks@.take(i + 1).drop_last() =~= chunks@.take(i as int));
            assert(chunks@.take(i + 1).last() == chunks@[i as int]);
            total_size_grows(chunks@, i + 1);
        }
        let ghost before = locs(list@);
        let c: &AppendedChunk = &chunks[i];
        let l: ChunkLocation = new_location(
            c.chunk_id,
            c.nodes.clone(),
            c.size,
            Some(at),
            file,
        );
        let ghost lv = l@;
        list.push(l);
        at = at + c.size as u64;
        proof {
            assert(locs(list@) =~= before.push(lv));
            assert(before.push(lv) =~= kept + appended_locations(
                chunks@.take(i + 1),
                base as int,
                file,
            ));
        }
        i += 1;
    }
    assert(chunks@.take(i as int) =~= chunks@);
    m.chunk_locations = list;
    m.size = at;
    m.modified_at = now_secs;
    let partial: u64 = m.size % chunk_size;
    let remaining: u64 = if partial == 0 {
        0
    } else {
        chunk_size - partial
    };
    (m, remaining)
}

// ---------------------------------------------------------------------------
// Writing and reading single chunks.
// ---------------------------------------------------------------------------

/// The checksum is the one that a chunk goes by.
pub open spec fn checksum_fits(chunk: ChunkId, checksum: [u8; 32]) -> bool {
    checksum == chunk.hash
}

/// The refusal of a chunk whose checksum is not its identity.
pub fn check_checksum(chunk_id: ChunkId, checksum: [u8; 32]) -> (r: Option<Response>)
    ensures
        checksum == chunk_id.hash ==> r is None,
        checksum != chunk_id.hash ==> r is Some && r->0.refuses(
            "Checksum mismatch"@,
            ErrorCode::ChecksumMismatch,
        ),
        r is None <==> checksum_fits(chunk_id, checksum),
{
    if ChunkId::from_hash(checksum) != chunk_id {
        Some(Response::refusal("Checksum mismatch".to_owned(), ErrorCode::ChecksumMismatch))
    } else {
        None
    }
}

/// The record to store after a chunk was written here.
pub open spec fn recorded_here(
    held: Option<Loc>,
    chunk: ChunkId,
    size: usize,
    local: NodeId,
    rf: usize,
    now_ms: u64,
) -> Option<Loc> {
    let known = match held {
        Some(l) => l,
        None => Loc {
            chunk_id: chunk,
            nodes: Seq::empty(),
            size: size,
            checksum: chunk.hash,
            file_offset: None,
            written_at: Some(now_ms),
            client_write_seq: None,
            file_id: None,
        },
    };
    if !known.nodes.contains(local) && known.nodes.len() < rf {
        Some(Loc { nodes: known.nodes.push(local), ..known })
    } else {
        None
    }
}

/// The record to store after a chunk was written here: the held one, or a new one, with this
/// node added. Nothing is stored if this node is named already, or enough others are.
pub fn location_after_write(
    held: Option<ChunkLocation>,
    chunk_id: ChunkId,
    size: usize,
    local: NodeId,
    rf: usize,
    now_ms: u64,
) -> (r: Option<ChunkLocation>)
    ensures
        ({
            let known = match held {
                Some(l) => l@,
                None => Loc {
                    chunk_id: chunk_id,
                    nodes: Seq::empty(),
                    size: size,
                    checksum: chunk_id.hash,
                    file_offset: None,
                    written_at: Some(now_ms),
                    client_write_seq: None,
                    file_id: None,
                },
            };
            if !known.nodes.contains(local) && known.nodes.len() < rf {
                r is Some && r->0@ == (Loc { nodes: known.nodes.push(local), ..known })
            } else {
                r is None
            }
        }),
        recorded_here(
            match held {
                Some(l) => Some(l@),
                None => None,
            },
            chunk_id,
            size,
            local,
            rf,
            now_ms,
        ) == match r {
            Some(l) => Some(l@),
            None => None,
        },
{
    let mut l: ChunkLocation = match held {
        Some(l) => l,
        None => {
            let none: Vec<NodeId> = Vec::new();
            assert(none@ =~= Seq::<NodeId>::empty());
            ChunkLocation {
                chunk_id,
                nodes: none,
                size,
                checksum: chunk_id.hash,
                file_offset: None,
                written_at: Some(now_ms),
                client_write_seq: None,
                file_id: None,
            }
        },
    };
    if !crate::locations::lists_node(&l.nodes, local) && l.nodes.len() < rf {
        l.nodes.push(local);
        Some(l)
    } else {
        None
    }
}

/// The reply to writing a chunk.
pub fn write_chunk_response(failure: Option<String>) -> (r: Response)
    ensures
        match failure {
            Some(why) => r.refuses("Failed to write chunk: "@ + why@, ErrorCode::IOError),
            None => r.acknowledges(),
        },
{
    match failure {
        Some(why) => Response::refusal(
            join("Failed to write chunk: ", why.as_str()),
            ErrorCode::IOError,
        ),
        None => Response::Done { data: None },
    }
}

/// The reply to reading a chunk: the bytes, with how much the cache holds and can hold.
pub fn read_chunk_response(
    chunk_id: ChunkId,
    chunk_name: &str,
    data: Option<Vec<u8>>,
    cache_capacity: usize,
    cache_len: usize,
) -> (r: Response)
    ensures
        match data {
            Some(d) => match r {
                Response::ChunkData { chunk_id: c, data: b, cache_stats } => c == chunk_id && b@
                    == d@ && cache_stats == Some((0usize, cache_capacity, cache_len)),
                _ => false,
            },
            None => r.refuses(
                "Chunk "@ + chunk_name@ + " not found on this node"@,
                ErrorCode::NotFound,
            ),
        },
{
    match data {
        Some(d) => Response::ChunkData {
            chunk_id,
            data: d,
            cache_stats: Some((0, cache_capacity, cache_len)),
        },
        None => {
            let mut s: String = join("Chunk ", chunk_name);
            s.append(" not found on this node");
            Response::refusal(s, ErrorCode::NotFound)
        },
    }
}

/// The part of composed content that a request gets.
pub open spec fn part_of(content: Seq<u8>, offset: u64, length: u64) -> Seq<u8> {
    let n = content.len() as int;
    let start = if offset <= n {
        offset as int
    } else {
        n
    };
    content.subrange(
        start,
        if start + length <= n {
            start + length
        } else {
            n
        },
    )
}

/// The part of composed content that a request for a range gets. Here a range behind the end is
/// empty.
pub fn composed_range(content: &Vec<u8>, offset: u64, length: u64) -> (r: Vec<u8>)
    ensures
        ({
            let n = content@.len() as int;
            let start = if offset <= n {
                offset as int
            } else {
                n
            };
            let end = if start + length <= n {
                start + length
            } else {
                n
            };
            r@ == content@.subrange(start, end)
        }),
        r@ == part_of(content@, offset, length),
{
    let n: usize = content.len();
    let start: usize = if offset <= n as u64 {
        offset as usize
    } else {
        n
    };
    let end: usize = if length <= (n - start) as u64 {
        start + length as usize
    } else {
        n
    };
    let mut out: Vec<u8> = Vec::new();
    let mut i: usize = start;
    while i < end
        invariant
            start <= i <= end <= n,
            n == content@.len(),
            out@ =~= content@.subrange(start as int, i as int),
        decreases end - i,
    {
        out.push(content[i]);
        i += 1;
    }
    out
}

/// The nodes that a chunk is read from: those of its location that are other nodes and online,
/// in order.
pub open spec fn read_candidates(holders: Seq<NodeId>, local: NodeId, nodes: Seq<NodeInfo>) -> Seq<
    NodeId,
>
    decreases holders.len(),
{
    if holders.len() == 0 {
        holders
    } else {
        let sofar = read_candidates(holders.drop_last(), local, nodes);
        if holders.last() != local && is_online(nodes, holders.last()) {
            sofar.push(holders.last())
        } else {
            sofar
        }
    }
}

/// The node is a member that is online.
pub open spec fn is_online(nodes: Seq<NodeInfo>, node: NodeId) -> bool {
    exists|i: int|
        0 <= i < nodes.len() && (#[trigger] nodes[i]).id == node && nodes[i].status
            == NodeStatus::Online
}

pub fn is_online_exec(nodes: &Vec<NodeInfo>, node: NodeId) -> (r: bool)
    ensures
        r == is_online(nodes@, node),
{
    let mut i: usize = 0;
    while i < nodes.len()
        invariant
            i <= nodes@.len(),
            forall|j: int|
                0 <= j < i ==> !((#[trigger] nodes@[j]).id == node && nodes@[j].status
                    == NodeStatus::Online),
        decreases nodes@.len() - i,
    {
        if nodes[i].id == node && nodes[i].status == NodeStatus::Online {
            return true;
        }
        i += 1;
    }
    false
}

pub fn find_read_candidates(holders: &Vec<NodeId>, local: NodeId, nodes: &Vec<NodeInfo>) -> (r: Vec<
    NodeId,
>)
    ensures
        r@ == read_candidates(holders@, local, nodes@),
{
    let mut out: Vec<NodeId> = Vec::new();
    let mut i: usize = 0;
    assert(holders@.take(0) =~= Seq::<NodeId>::empty());
    while i < holders.len()
        invariant
            i <= holders@.len(),
            out@ == read_candidates(holders@.take(i as int), local, nodes@),
        decreases holders@.len() - i,
    {
        proof {
            assert(holders@.take(i + 1).drop_last() =~= holders@.take(i as int));
            assert(holders@.take(i + 1).last() == holders@[i as int]);
        }
        if holders[i] != local && is_online_exec(nodes, holders[i]) {
            out.push(holders[i]);
        }
        i += 1;
    }
    assert(holders@.take(i as int) =~= holders@);
    out
}

/// How long a chunk that nobody could serve is not asked for again.
pub const MISSING_TTL_MS: u64 = 300000;

/// Chunks that nobody could serve, with the time at which that was found.
pub struct MissingChunks {
    entries: Vec<(ChunkId, u64)>,
}

/// The entry is recent.
pub open spec fn still_missing(at_ms: u64, now_ms: u64) -> bool {
    crate::loops::since(at_ms, now_ms) < MISSING_TTL_MS
}

/// A chunk was found missing so recently that it is not worth asking for.
pub open spec fn is_missing(entries: Seq<(ChunkId, u64)>, chunk: ChunkId, now_ms: u64) -> bool {
    exists|i: int|
        0 <= i < entries.len() && (#[trigger] entries[i]).0 == chunk && still_missing(
            entries[i].1,
            now_ms,
        )
}

/// The recent entries of chunks other than this one.
pub open spec fn other_missing(entries: Seq<(ChunkId, u64)>, chunk: ChunkId, now_ms: u64) -> Seq<
    (ChunkId, u64),
>
    decreases entries.len(),
{
    if entries.len() == 0 {
        entries
    } else {
        let sofar = other_missing(entries.drop_last(), chunk, now_ms);
        if entries.last().0 != chunk && still_missing(entries.last().1, now_ms) {
            sofar.push(entries.last())
        } else {
            sofar
        }
    }
}

impl View for MissingChunks {
    type V = Seq<(ChunkId, u64)>;

    closed spec fn view(&self) -> Seq<(ChunkId, u64)> {
        self.entries@
    }
}

/// What is held to be missing after a chunk was asked for in vain.
pub open spec fn missing_after(
    entries: Seq<(ChunkId, u64)>,
    chunk: ChunkId,
    tried: nat,
    total: nat,
    now_ms: u64,
) -> Seq<(ChunkId, u64)> {
    if tried > 0 && tried >= total {
        other_missing(entries, chunk, now_ms).push((chunk, now_ms))
    } else {
        entries
    }
}

impl MissingChunks {
    pub fn new() -> (m: MissingChunks)
        ensures
            m@.len() == 0,
    {
        MissingChunks { entries: Vec::new() }
    }

    /// Whether a chunk is not worth asking for.
    pub fn is_blocked(&self, chunk: ChunkId, now_ms: u64) -> (r: bool)
        ensures
            r == is_missing(self@, chunk, now_ms),
    {
        let mut i: usize = 0;
        while i < self.entries.len()
            invariant
                i <= self.entries@.len(),
                self@ == self.entries@,
                forall|j: int|
                    0 <= j < i ==> !((#[trigger] self@[j]).0 == chunk && still_missing(
                        self@[j].1,
                        now_ms,
                    )),
            decreases self.entries@.len() - i,
        {
            let at: u64 = self.entries[i].1;
            let age: u64 = if now_ms >= at {
                now_ms - at
            } else {
                0
            };
            if self.entries[i].0 == chunk && age < MISSING_TTL_MS {
                assert(self@[i as int].0 == chunk && still_missing(self@[i as int].1, now_ms));
                return true;
            }
            i += 1;
        }
        false
    }

    /// Notes that no online node could serve a chunk, and forgets what was noted long ago.
    /// Nothing is noted if there was no online node to ask.
    pub fn note_unavailable(&mut self, chunk: ChunkId, tried: usize, total: usize, now_ms: u64)
        ensures
            final(self)@ == (if tried > 0 && tried >= total {
                other_missing(old(self)@, chunk, now_ms).push((chunk, now_ms))
            } else {
                old(self)@
            }),
            final(self)@ == missing_after(
                old(self)@,
                chunk,
                tried as nat,
                total as nat,
                now_ms,
            ),
    {
        if tried > 0 && tried >= total {
            let ghost before = self@;
            let mut out: Vec<(ChunkId, u64)> = Vec::new();
            let mut i: usize = 0;
            assert(before.take(0) =~= Seq::<(ChunkId, u64)>::empty());
            while i < self.entries.len()
                invariant
                    i <= self.entries@.len(),
                    before == self.entries@,
                    out@ == other_missing(before.take(i as int), chunk, now_ms),
                decreases self.entries@.len() - i,
            {
                proof {
                    assert(before.take(i + 1).drop_last() =~= before.take(i as int));
                    assert(before.take(i + 1).last() == self.entries@[i as int]);
                }
                let at: u64 = self.entries[i].1;
                let age: u64 = if now_ms >= at {
                    now_ms - at
                } else {
                    0
                };
                if self.entries[i].0 != chunk && age < MISSING_TTL_MS {
                    out.push(self.entries[i]);
                }
                i += 1;
            }
            assert(before.take(i as int) =~= before);
            out.push((chunk, now_ms));
            self.entries = out;
        }
    }
}

} // verus!
