//! Requests about chunks and files that need more than one look: what is done first, and the
//! replies.
use crate::digest::{compute_chunk_hash_at, content_digest_at};
use crate::locations::chunk_map_fallback;
use crate::metadata::{failed, Lookup};
use crate::patch::PatchState;
use crate::protocol::Response;
use crate::server::{Server, ServerState};
use crate::text::join;
use crate::types::{locs, ChunkId, ChunkLocation, ErrorCode, FileId, FileMetadata};
use crate::write_path::check_checksum;
use vstd::prelude::*;

verus! {

// ---------------------------------------------------------------------------
// Reading and writing a chunk.
// ---------------------------------------------------------------------------

/// The file whose record is pulled before a chunk is read.
pub open spec fn file_to_pull(s: ServerState, chunk: ChunkId, client_write_seq: Option<u64>) -> Option<
    FileId,
> {
    if client_write_seq is Some && s.chunks.owner.dom().contains(chunk.hash) {
        let file = FileId { id: s.chunks.owner[chunk.hash] };
        if client_write_seq->0 > s.write_seq_of(file) {
            Some(file)
        } else {
            None
        }
    } else {
        None
    }
}

/// The state once a chunk is about to be written.
pub open spec fn active_since(s: ServerState, background: bool, now_ms: u64) -> ServerState {
    if background {
        s
    } else {
        ServerState { last_write_ms: now_ms, ..s }
    }
}

impl Server {
    /// The file whose record is pulled from the leader before a chunk is read: the client has
    /// seen a later write to it than this node has.
    pub fn stale_file(&self, chunk_id: ChunkId, client_write_seq: Option<u64>) -> (r: Option<FileId>)
        ensures
            r == (if client_write_seq is Some && self@.chunks.owner.dom().contains(chunk_id.hash) {
                let file = FileId { id: self@.chunks.owner[chunk_id.hash] };
                if client_write_seq->0 > self@.write_seq_of(file) {
                    Some(file)
                } else {
                    None
                }
            } else {
                None
            }),
            r == file_to_pull(self@, chunk_id, client_write_seq),
    {
        match client_write_seq {
            Some(seen) => match self.chunk_map_ref().find_file_by_chunk(&chunk_id) {
                Some(file) => {
                    let ours: u64 = match self.file_write_seq(file) {
                        Some(seq) => seq,
                        None => 0,
                    };
                    if seen > ours {
                        Some(file)
                    } else {
                        None
                    }
                },
                None => None,
            },
            None => None,
        }
    }

    /// Begins to write a chunk here, or refuses it. A client's write counts as activity of the
    /// cluster, even one that is refused; a heal does not.
    pub fn write_chunk_begins(
        &mut self,
        chunk_id: ChunkId,
        checksum: [u8; 32],
        background: bool,
        now_ms: u64,
    ) -> (r: Option<Response>)
        ensures
            checksum == chunk_id.hash ==> r is None,
            checksum != chunk_id.hash ==> r is Some && r->0.refuses(
                "Checksum mismatch"@,
                ErrorCode::ChecksumMismatch,
            ),
            final(self)@ == (if background {
                old(self)@
            } else {
                ServerState { last_write_ms: now_ms, ..old(self)@ }
            }),
            r is None <==> crate::write_path::checksum_fits(chunk_id, checksum),
            final(self)@ == active_since(old(self)@, background, now_ms),
    {
        if !background {
            self.note_cluster_write(now_ms);
        }
        check_checksum(chunk_id, checksum)
    }
}

/// The time that a replicated chunk's file gets.
pub open spec fn mtime_kept(written: Response, written_at: Option<u64>) -> Option<u64> {
    if written is Done {
        written_at
    } else {
        None
    }
}

/// The time that a replicated chunk's file gets: that of its first write, once it is here. A scrub
/// compares the two.
pub fn replicated_mtime(written: &Response, written_at: Option<u64>) -> (r: Option<u64>)
    ensures
        r == (if written is Done {
            written_at
        } else {
            None
        }),
        r == mtime_kept(*written, written_at),
{
    match written {
        Response::Done { .. } => written_at,
        _ => None,
    }
}

/// The reply to reading a part of a chunk.
pub fn read_range_response(
    chunk_id: ChunkId,
    data: Result<Vec<u8>, String>,
    cache_capacity: usize,
    cache_len: usize,
) -> (r: Response)
    ensures
        match data {
            Ok(d) => r == (Response::ChunkData {
                chunk_id,
                data: d,
                cache_stats: Some((0usize, cache_capacity, cache_len)),
            }),
            Err(why) => r.refuses("Failed to read chunk range: "@ + why@, ErrorCode::NotFound),
        },
{
    match data {
        Ok(d) => Response::ChunkData {
            chunk_id,
            data: d,
            cache_stats: Some((0, cache_capacity, cache_len)),
        },
        Err(why) => Response::refusal(
            join("Failed to read chunk range: ", why.as_str()),
            ErrorCode::NotFound,
        ),
    }
}

// ---------------------------------------------------------------------------
// Pushing a chunk to another node.
// ---------------------------------------------------------------------------

/// The refusal of an order from a node that is not the leader.
pub fn validate_leader(sender_is_leader: bool, sender_name: &str) -> (r: Option<Response>)
    ensures
        sender_is_leader ==> r is None,
        !sender_is_leader ==> r is Some && r->0.refuses(
            "Rejected: sender "@ + sender_name@
                + " is not the current leader per this node's cluster view"@,
            ErrorCode::InvalidRequest,
        ),
{
    if sender_is_leader {
        return None;
    }
    let mut s: String = join("Rejected: sender ", sender_name);
    s.append(" is not the current leader per this node's cluster view");
    Some(Response::refusal(s, ErrorCode::InvalidRequest))
}

/// The chunk that is pushed for a name, if one can be.
pub open spec fn pushed_for(
    chunk: ChunkId,
    in_patch: bool,
    state: Result<Option<PatchState>, String>,
) -> Option<ChunkId> {
    if !in_patch {
        Some(chunk)
    } else {
        match state {
            Ok(Some(PatchState::Folded(c))) => Some(c),
            Ok(None) => Some(chunk),
            _ => None,
        }
    }
}

/// The chunk that is pushed for a name: what a consolidated token stands for, or the chunk itself.
/// A token that is still pending once nobody works on it belongs to a consolidation that failed,
/// and cannot be pushed.
pub fn resolve_push_target(
    chunk_id: ChunkId,
    chunk_name: &str,
    in_patch: bool,
    state: Result<Option<PatchState>, String>,
) -> (r: Result<ChunkId, Response>)
    ensures
        !in_patch ==> r == Ok::<ChunkId, Response>(chunk_id),
        in_patch ==> match state {
            Ok(Some(PatchState::Folded(c))) => r == Ok::<ChunkId, Response>(c),
            Ok(Some(PatchState::Pending { .. })) => r is Err && r->Err_0.refuses(
                "Failed to resolve patch state: patch_state for "@ + chunk_name@
                    + " is still Pending after its fold's lock was released — that fold must have failed"@,
                ErrorCode::InternalError,
            ),
            Ok(None) => r == Ok::<ChunkId, Response>(chunk_id),
            Err(why) => r is Err && r->Err_0.refuses(
                "Failed to resolve patch state: "@ + why@,
                ErrorCode::InternalError,
            ),
        },
        pushed_for(chunk_id, in_patch, state) == match r {
            Ok(c) => Some(c),
            Err(_) => None,
        },
{
    if !in_patch {
        return Ok(chunk_id);
    }
    match state {
        Ok(Some(PatchState::Folded(c))) => Ok(c),
        Ok(Some(PatchState::Pending { .. })) => {
            let mut text: String = join(
                "Failed to resolve patch state: patch_state for ",
                chunk_name,
            );
            text.append(
                " is still Pending after its fold's lock was released — that fold must have failed",
            );
            Err(Response::refusal(text, ErrorCode::InternalError))
        },
        Ok(None) => Ok(chunk_id),
        Err(why) => Err(failed("Failed to resolve patch state: ", why.as_str())),
    }
}

/// The bytes are not what the chunk's identity says. That can only be seen where the chunk's place
/// and file are known.
pub open spec fn is_corrupt(
    chunk_id: ChunkId,
    record: Option<ChunkLocation>,
    data: Seq<u8>,
) -> bool {
    match record {
        Some(l) => match (l@.file_offset, l@.file_id) {
            (Some(offset), Some(file)) => content_digest_at(data, offset, file) != chunk_id.hash,
            _ => false,
        },
        None => false,
    }
}

fn check_before_push(
    chunk_id: ChunkId,
    chunk_name: &str,
    record: &Option<ChunkLocation>,
    data: &Vec<u8>,
) -> (r: Option<Response>)
    ensures
        ({
            if is_corrupt(chunk_id, *record, data@) {
                r is Some && r->0.refuses(
                    "Chunk "@ + chunk_name@ + " content hash mismatch (disk corruption)"@,
                    ErrorCode::ChecksumMismatch,
                )
            } else {
                r is None
            }
        }),
{
    match record {
        Some(l) => match (l.file_offset, l.file_id) {
            (Some(offset), Some(file)) => {
                let digest: [u8; 32] = compute_chunk_hash_at(
                    data.as_slice(),
                    offset,
                    file,
                );
                if ChunkId::from_hash(digest) != chunk_id {
                    let mut s: String = join("Chunk ", chunk_name);
                    s.append(" content hash mismatch (disk corruption)");
                    return Some(Response::refusal(s, ErrorCode::ChecksumMismatch));
                }
                None
            },
            _ => None,
        },
        None => None,
    }
}

/// The bytes to push, once they were read: a chunk that is not here, or whose bytes are wrong, is
/// not spread.
pub fn content_to_push(
    chunk_id: ChunkId,
    chunk_name: &str,
    record: &Option<ChunkLocation>,
    data: Result<Vec<u8>, String>,
) -> (r: Result<Vec<u8>, Response>)
    ensures
        match data {
            Err(why) => r is Err && r->Err_0.refuses(
                "Chunk not found locally: "@ + why@,
                ErrorCode::NotFound,
            ),
            Ok(d) => if is_corrupt(chunk_id, *record, d@) {
                r is Err && r->Err_0.refuses(
                    "Chunk "@ + chunk_name@ + " content hash mismatch (disk corruption)"@,
                    ErrorCode::ChecksumMismatch,
                )
            } else {
                r == Ok::<Vec<u8>, Response>(d)
            },
        },
        r is Ok <==> data is Ok && !is_corrupt(chunk_id, *record, (data->Ok_0)@),
{
    match data {
        Err(why) => Err(
            Response::refusal(join("Chunk not found locally: ", why.as_str()), ErrorCode::NotFound),
        ),
        Ok(d) => match check_before_push(chunk_id, chunk_name, record, &d) {
            Some(refused) => Err(refused),
            None => Ok(d),
        },
    }
}

// ---------------------------------------------------------------------------
// Looking up files.
// ---------------------------------------------------------------------------

/// The file that is reported on, asked for by its path, or the refusal.
pub fn info_by_path(lookup: Lookup) -> (r: Result<FileMetadata, Response>)
    ensures
        match lookup {
            Lookup::Found(m) => r == Ok::<FileMetadata, Response>(m),
            Lookup::Missing => r is Err && r->Err_0.refuses("File not found"@, ErrorCode::NotFound),
            Lookup::Failed(why) => r is Err && r->Err_0.refuses(
                "Failed to get file info: "@ + why@,
                ErrorCode::InternalError,
            ),
        },
{
    match lookup {
        Lookup::Found(m) => Ok(m),
        Lookup::Missing => Err(
            Response::refusal("File not found".to_owned(), ErrorCode::NotFound),
        ),
        Lookup::Failed(why) => Err(failed("Failed to get file info: ", why.as_str())),
    }
}

/// The file that is reported on, asked for by its identity, or the refusal.
pub fn info_by_id(lookup: Lookup, file_name: &str) -> (r: Result<FileMetadata, Response>)
    ensures
        match lookup {
            Lookup::Found(m) => r == Ok::<FileMetadata, Response>(m),
            Lookup::Missing => r is Err && r->Err_0.refuses(
                "File not found by ID: "@ + file_name@,
                ErrorCode::NotFound,
            ),
            Lookup::Failed(why) => r is Err && r->Err_0.refuses(
                "Failed to get file info by id: "@ + why@,
                ErrorCode::InternalError,
            ),
        },
{
    match lookup {
        Lookup::Found(m) => Ok(m),
        Lookup::Missing => Err(
            Response::refusal(join("File not found by ID: ", file_name), ErrorCode::NotFound),
        ),
        Lookup::Failed(why) => Err(failed("Failed to get file info by id: ", why.as_str())),
    }
}

/// The reply to asking which patch tokens are known here.
pub fn patch_token_ids(found: Result<Vec<ChunkId>, String>) -> (r: Response)
    ensures
        match found {
            Ok(ids) => r == (Response::PatchTokenIds { ids }),
            Err(_) => r.refuses("Failed to read local metadata"@, ErrorCode::InternalError),
        },
{
    match found {
        Ok(ids) => Response::PatchTokenIds { ids },
        Err(_) => Response::refusal(
            "Failed to read local metadata".to_owned(),
            ErrorCode::InternalError,
        ),
    }
}

/// The reply to asking for the stored record of a chunk as it is: one that cannot be read counts
/// as absent.
pub fn raw_chunk_location(found: Result<Option<ChunkLocation>, String>) -> (r: Response)
    ensures
        r == (Response::DebugRawChunkLocation {
            location: match found {
                Ok(location) => location,
                Err(_) => None,
            },
        }),
{
    match found {
        Ok(location) => Response::DebugRawChunkLocation { location },
        Err(_) => Response::DebugRawChunkLocation { location: None },
    }
}

impl Server {
    /// The list that a request for a part of a file's chunk map is answered from: the map's own,
    /// or that of the stored record, which the map then holds too. A file of which neither knows
    /// a chunk is refused.
    pub fn chunk_map_source(
        &mut self,
        file_id: FileId,
        file_name: &str,
        stored: Option<FileMetadata>,
    ) -> (r: Result<(Vec<ChunkLocation>, u64), Response>)
        ensures
            if old(self)@.chunks.files.dom().contains(file_id.id) {
                r is Ok && (locs((r->Ok_0).0@), (r->Ok_0).1)
                    == old(self)@.chunks.files[file_id.id] && final(self)@ == old(self)@
            } else if stored is Some && stored->0@.chunk_locations.len() > 0 {
                r is Ok && locs((r->Ok_0).0@) == stored->0@.chunk_locations && (r->Ok_0).1
                    == stored->0@.write_seq && final(self)@ == (ServerState {
                    chunks: crate::chunk_map::Chunks {
                        files: old(self)@.chunks.files.insert(
                            file_id.id,
                            (stored->0@.chunk_locations, stored->0@.write_seq),
                        ),
                        owner: old(self)@.chunks.owner,
                    },
                    ..old(self)@
                })
            } else {
                r is Err && r->Err_0.refuses(
                    "No chunk map entry for file "@ + file_name@,
                    ErrorCode::NotFound,
                ) && final(self)@ == old(self)@
            },
            crate::locations::stand_in(
                match stored {
                    Some(m) => Some(m@),
                    None => None,
                },
            ) is None && !old(self)@.chunks.files.dom().contains(file_id.id) <==> r is Err,
    {
        match self.chunk_map_ref().entry(file_id) {
            Some(e) => Ok(e),
            None => match chunk_map_fallback(stored) {
                Some(e) => {
                    let list: Vec<ChunkLocation> = crate::types::clone_locs(&e.0);
                    self.set_chunk_map_entry(file_id, list, e.1);
                    Ok(e)
                },
                None => Err(
                    Response::refusal(
                        join("No chunk map entry for file ", file_name),
                        ErrorCode::NotFound,
                    ),
                ),
            },
        }
    }
}

} // verus!
