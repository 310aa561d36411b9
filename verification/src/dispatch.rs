//! Which requests there are, and what each counts as.
use crate::protocol::Response;
use crate::stats::{bumped, OpsTracker, Second};
use crate::types::ErrorCode;
use vstd::prelude::*;

verus! {

/// The requests that a node knows.
#[derive(Clone, Copy, Debug, PartialEq, Eq, Structural)]
pub enum RequestKind {
    ReadChunk,
    ReadChunkRange,
    WriteChunk,
    TombstoneChunk,
    DeleteChunk,
    DeleteChunksBatch,
    ClearDeleteQueueEntry,
    GetDeleteQueue,
    HasChunk,
    HasChunks,
    ReplicateChunk,
    PushChunkTo,
    DeleteChunkReplica,
    ReplicateMetadata,
    ReplicateMetadataBatch,
    DeleteMetadata,
    DeletePathIndex,
    ReplicateChunkLocation,
    ReplicateChunkLocations,
    ReplicatePatchFold,
    PurgeChunkLocation,
    PurgeChunkLocations,
    ConfirmChunksLive,
    GetPatchTokenIds,
    TriggerOrphanCleanup,
    ReconcileMetadata,
    GetMetadataSequence,
    DisseminateMetadata,
    GetFileInventory,
    GetFileMetadataBatch,
    PrefetchHint,
    GetFileMetadataByPath,
    PutFileMetadata,
    ListDirectory,
    WriteFile,
    WriteFileLocalOnly,
    PatchChunk,
    MultiPatch,
    DeleteFile,
    RenameFile,
    GetClusterStatus,
    GetStorageStats,
    GetHealingStatus,
    TriggerScrub,
    EnableHealing,
    DisableHealing,
    SetHealingTuning,
    SetReplicationFactor,
    TriggerHealing,
    TriggerPhantomReconciliation,
    DebugGetRawChunkLocation,
    TriggerMetadataRepair,
    QueryChunkSizes,
    HealFile,
    VerifyChunkIntegrity,
    RepairFile,
    GetFileInfo,
    GetFileInfoById,
    RemoveNode,
    ListAllFiles,
    PurgeFileMetadata,
    PurgeFileMetadataById,
    GetFileChunkMap,
    AppendFile,
    GetNodeStats,
    Unknown,
}

/// What a request counts as. Traffic between nodes and administration count as nothing.
#[derive(Clone, Copy, Debug, PartialEq, Eq, Structural)]
pub enum OpClass {
    Read,
    Write,
    Meta,
    Uncounted,
}

pub open spec fn op_class(kind: RequestKind) -> OpClass {
    match kind {
        RequestKind::ReadChunk | RequestKind::ReadChunkRange => OpClass::Read,
        RequestKind::WriteChunk
        | RequestKind::WriteFile
        | RequestKind::WriteFileLocalOnly
        | RequestKind::PatchChunk
        | RequestKind::MultiPatch
        | RequestKind::AppendFile => OpClass::Write,
        RequestKind::GetFileMetadataByPath
        | RequestKind::PutFileMetadata
        | RequestKind::ListDirectory
        | RequestKind::DeleteFile
        | RequestKind::RenameFile => OpClass::Meta,
        _ => OpClass::Uncounted,
    }
}

/// The running second after a request was counted.
pub open spec fn counted(s: Second, class: OpClass) -> Second {
    match class {
        OpClass::Read => Second { reads: bumped(s.reads), ..s },
        OpClass::Write => Second { writes: bumped(s.writes), ..s },
        OpClass::Meta => Second { meta: bumped(s.meta), ..s },
        OpClass::Uncounted => s,
    }
}

fn op_class_exec(kind: RequestKind) -> (r: OpClass)
    ensures
        r == op_class(kind),
{
    match kind {
        RequestKind::ReadChunk | RequestKind::ReadChunkRange => OpClass::Read,
        RequestKind::WriteChunk
        | RequestKind::WriteFile
        | RequestKind::WriteFileLocalOnly
        | RequestKind::PatchChunk
        | RequestKind::MultiPatch
        | RequestKind::AppendFile => OpClass::Write,
        RequestKind::GetFileMetadataByPath
        | RequestKind::PutFileMetadata
        | RequestKind::ListDirectory
        | RequestKind::DeleteFile
        | RequestKind::RenameFile => OpClass::Meta,
        _ => OpClass::Uncounted,
    }
}

/// Counts a request, and refuses one that is not known. Every other one goes to its handler.
pub fn handle_request(kind: RequestKind, tracker: &mut OpsTracker) -> (r: Option<Response>)
    requires
        old(tracker).wf(),
    ensures
        final(tracker).wf(),
        final(tracker).running() == counted(old(tracker).running(), op_class(kind)),
        final(tracker).recent() == old(tracker).recent(),
        kind != RequestKind::Unknown ==> r is None,
        kind == RequestKind::Unknown ==> r is Some && r->0.refuses(
            "Request type not yet implemented"@,
            ErrorCode::InternalError,
        ),
{
    match op_class_exec(kind) {
        OpClass::Read => tracker.inc_read(),
        OpClass::Write => tracker.inc_write(),
        OpClass::Meta => tracker.inc_meta(),
        OpClass::Uncounted => {},
    }
    if kind == RequestKind::Unknown {
        Some(
            Response::refusal(
                "Request type not yet implemented".to_owned(),
                ErrorCode::InternalError,
            ),
        )
    } else {
        None
    }
}

/// The reply to checking a stored chunk: one that is not there is not valid.
pub fn chunk_integrity(found: bool, verified: bool) -> (r: Response)
    ensures
        r == (Response::ChunkValid { found, valid: found && verified }),
{
    Response::ChunkValid { found, valid: found && verified }
}

/// The reply to asking whether a chunk is here.
pub fn has_chunk(on_disk: bool) -> (r: Response)
    ensures
        r == (Response::Bool { value: on_disk }),
{
    Response::Bool { value: on_disk }
}

/// The reply to hints about coming reads: all of them are accepted, and followed as far as there
/// is room.
pub fn prefetch_accepted(chunk_ids: &Vec<crate::types::ChunkId>) -> (r: Response)
    ensures
        r == (Response::PrefetchAccepted { accepted: chunk_ids@.len() as usize }),
{
    Response::PrefetchAccepted { accepted: chunk_ids.len() }
}

/// The sizes of chunks on disk; a chunk that is not there has none.
pub open spec fn sizes_or_zero(sizes: Seq<Option<u64>>) -> Seq<u64> {
    sizes.map_values(|s: Option<u64>| crate::chunk_map::or_zero(s))
}

pub fn query_chunk_sizes(sizes: &Vec<Option<u64>>) -> (r: Response)
    ensures
        match r {
            Response::ChunkSizes { sizes: out } => out@ == sizes_or_zero(sizes@),
            _ => false,
        },
{
    let mut out: Vec<u64> = Vec::new();
    let mut i: usize = 0;
    while i < sizes.len()
        invariant
            i <= sizes@.len(),
            out@ =~= sizes_or_zero(sizes@).take(i as int),
        decreases sizes@.len() - i,
    {
        let s: u64 = match sizes[i] {
            Some(n) => n,
            None => 0,
        };
        out.push(s);
        i += 1;
    }
    assert(sizes_or_zero(sizes@).take(i as int) =~= sizes_or_zero(sizes@));
    Response::ChunkSizes { sizes: out }
}

} // verus!
