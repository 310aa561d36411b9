//! Replies to requests.
use crate::types::{ChunkId, ChunkLocation, ErrorCode, FileId, FileMetadata, NodeId, NodeInfo};
use vstd::prelude::*;

verus! {

/// A file whose chunks wait to be deleted.
#[derive(Debug)]
pub struct DeleteQueueEntry {
    pub file_id: FileId,
    pub path: String,
    pub chunk_ids: Vec<ChunkId>,
}

/// What a request is answered with.
#[derive(Debug)]
#[allow(inconsistent_fields)]
pub enum Response {
    Done { data: Option<Vec<u8>> },
    Error { message: String, code: ErrorCode },
    NotLeader { leader_addr: Option<String> },
    NotModified,
    Bool { value: bool },
    BoolVec { values: Vec<bool> },
    ChunkData { chunk_id: ChunkId, data: Vec<u8>, cache_stats: Option<(usize, usize, usize)> },
    ChunkStale { current_chunk_id: ChunkId, current_nodes: Vec<NodeId> },
    ChunkIds {
        chunk_ids: Vec<ChunkId>,
        chunk_sizes: Vec<u64>,
        replica_nodes_per_chunk: Vec<Vec<NodeId>>,
    },
    ChunkLiveness { live: Vec<ChunkId> },
    ChunkSizes { sizes: Vec<u64> },
    ChunkValid { found: bool, valid: bool },
    PatchChunkResult { new_chunk_id: ChunkId, size: usize },
    MultiPatchResult { new_chunk_id: ChunkId, size: usize, patch_ts: Option<u64> },
    AppendFileResult { metadata: FileMetadata, remaining_in_chunk: u64 },
    FileMetadata { metadata: FileMetadata },
    FileMetadataBatch { items: Vec<FileMetadata> },
    FileInfo { metadata: FileMetadata, chunk_locations: Vec<ChunkLocation> },
    FileList { files: Vec<FileMetadata>, total_count: usize },
    FileInventory { entries: Vec<(FileId, u64)> },
    FileChunkMap {
        file_id: FileId,
        locations: Vec<ChunkLocation>,
        from_chunk: u32,
        total_chunks: u32,
        write_seq: u64,
    },
    MetadataSequence { sequence: u64 },
    DeleteQueue { entries: Vec<DeleteQueueEntry> },
    ClusterStatus {
        nodes: Vec<NodeInfo>,
        total_nodes: usize,
        healthy_nodes: usize,
        chunk_size_mb: usize,
        leader_node_id: Option<NodeId>,
        replication_factor: usize,
        local_node_id: Option<NodeId>,
    },
    StorageStats {
        total_chunks: usize,
        total_size: u64,
        replication_factor: usize,
        nodes_count: usize,
        total_space: u64,
        free_space: u64,
        available_space: u64,
    },
    NodeStats {
        reads_live: u64,
        writes_live: u64,
        meta_live: u64,
        reads_peak_1h: u64,
        writes_peak_1h: u64,
        meta_peak_1h: u64,
        total_peak_1h: u64,
        reads_avg_1h: u64,
        writes_avg_1h: u64,
        meta_avg_1h: u64,
        uptime_secs: u64,
        active_connections: u64,
        max_connections: u64,
    },
    PrefetchAccepted { accepted: usize },
    PatchTokenIds { ids: Vec<ChunkId> },
    DebugRawChunkLocation { location: Option<ChunkLocation> },
}

impl Response {
    /// A refusal with this text and code.
    pub open spec fn refuses(self, text: Seq<char>, code: ErrorCode) -> bool {
        match self {
            Response::Error { message, code: c } => message@ == text && c == code,
            _ => false,
        }
    }

    /// A plain acknowledgement.
    pub open spec fn acknowledges(self) -> bool {
        self == (Response::Done { data: None })
    }

    pub(crate) fn refusal(message: String, code: ErrorCode) -> (r: Response)
        ensures
            r.refuses(message@, code),
    {
        Response::Error { message, code }
    }
}

/// A refusal's text and code, as the failing step of a longer operation returns them.
pub open spec fn fails_with(e: (String, ErrorCode), text: Seq<char>, code: ErrorCode) -> bool {
    e.0@ == text && e.1 == code
}

} // verus!
