//! Patching chunks: the quick path that records a delta, and the rewrite that consolidates it.
use crate::delta::{decode_delta, delta_decoding, delta_encoding, encode_delta, patch_list};
use crate::digest::{compute_chunk_hash_at, content_id_at, patch_token, public_token};
use crate::patch_bytes::{
    compose, needed_len, needed_len_exec, patch_end, patched, patches_fit, patches_fit_exec,
    reversed, rewrite, same_bytes, undo_list, undo_restores_any_torn_write,
    undo_restores_finished_write,
};
use crate::protocol::{fails_with, Response};
use crate::text::join;
use crate::types::{ChunkId, ChunkLocation, ErrorCode, FileId, Loc};
use std::collections::VecDeque;
use vstd::prelude::*;

verus! {

/// What a patch token stands for.
#[derive(Clone, Copy, Debug)]
pub enum PatchState {
    /// The patch has been consolidated into this chunk.
    Folded(ChunkId),
    /// The patch still lies beside the chunk that it applies to.
    Pending { base_chunk_id: ChunkId, delta_chunk_id: ChunkId },
}

/// What is needed to take an interrupted rewrite back.
#[derive(Debug)]
pub struct PatchJournalEntry {
    pub old_chunk_id: ChunkId,
    pub new_chunk_id: ChunkId,
    /// What the patches overwrite, in their order.
    pub patches: Vec<(usize, Vec<u8>)>,
    /// How long the chunk was.
    pub old_len: usize,
}

/// What came of reading a chunk: nothing was there (under this name), the read failed (for this
/// reason), or the bytes.
#[derive(Debug)]
pub enum ChunkRead {
    Missing(String),
    Failed(String),
    Bytes(Vec<u8>),
}

/// A chunk's content after its patches, and the identity that it has now.
#[derive(Debug)]
pub struct Rewrite {
    pub new_chunk_id: ChunkId,
    pub size: usize,
    pub content: Vec<u8>,
    /// Set if the bytes or the identity changed: to be stored before a byte on disk is touched.
    pub journal: Option<PatchJournalEntry>,
}

/// The rewrite of `base` is right: every patch written in order, the identity that of the
/// result, and the way back in the journal exactly if the bytes or the identity changed.
pub open spec fn is_rewrite(
    r: Rewrite,
    base: Seq<u8>,
    patches: Seq<(usize, Seq<u8>)>,
    old_chunk_id: ChunkId,
    offset: u64,
    file_id: FileId,
) -> bool {
    &&& r.content@ == patched(base, patches)
    &&& r.size == r.content@.len()
    &&& r.new_chunk_id == content_id_at(r.content@, offset, file_id)
    &&& match r.journal {
        Some(j) => (r.new_chunk_id != old_chunk_id || r.content@ != base) && j.old_chunk_id
            == old_chunk_id
            && j.new_chunk_id == r.new_chunk_id && patch_list(j.patches@) == undo_list(
            base,
            patches,
        ) && j.old_len == base.len(),
        None => r.new_chunk_id == old_chunk_id && r.content@ == base,
    }
}

/// Whether patches changed the bytes that they were written over: taking them back gives other
/// bytes.
fn changed_by(
    old_len: usize,
    content: &Vec<u8>,
    undo: &Vec<(usize, Vec<u8>)>,
    patches: &Vec<(usize, Vec<u8>)>,
    Ghost(base): Ghost<Seq<u8>>,
) -> (r: bool)
    requires
        patches_fit(patch_list(patches@)),
        old_len == base.len(),
        content@ == patched(base, patch_list(patches@)),
        patch_list(undo@) == undo_list(base, patch_list(patches@)),
    ensures
        r == (content@ != base),
{
    if content.len() != old_len {
        return true;
    }
    let back: Vec<(usize, Vec<u8>)> = reversed(undo);
    proof {
        let ps = patch_list(patches@);
        undo_restores_finished_write(base, ps);
        assert forall|k: int| 0 <= k < patch_list(back@).len() implies patch_end(
            #[trigger] patch_list(back@)[k],
        ) <= usize::MAX by {
            let n = ps.len();
            assert(patch_list(back@)[k] == undo_list(base, ps)[n - 1 - k]);
            assert(patch_end(ps[n - 1 - k]) <= usize::MAX);
        }
    }
    let before: Vec<u8> = compose(content.clone(), &back);
    assert(before@ =~= base);
    !same_bytes(&before, content)
}

/// Rewrites a chunk with its patches.
pub fn full_rewrite_chunk(
    file_id: FileId,
    chunk_file_offset: u64,
    old_chunk_id: ChunkId,
    patches: &Vec<(usize, Vec<u8>)>,
    read: ChunkRead,
) -> (r: Result<Rewrite, (String, ErrorCode)>)
    requires
        patches_fit(patch_list(patches@)),
    ensures
        match read {
            ChunkRead::Missing(name) => r is Err && fails_with(
                r->Err_0,
                "Failed to read chunk range: Failed to open chunk file: "@ + name@,
                ErrorCode::NotFound,
            ),
            ChunkRead::Failed(why) => r is Err && fails_with(
                r->Err_0,
                "Failed to read chunk: "@ + why@,
                ErrorCode::InternalError,
            ),
            ChunkRead::Bytes(base) => r is Ok && is_rewrite(
                r->Ok_0,
                base@,
                patch_list(patches@),
                old_chunk_id,
                chunk_file_offset,
                file_id,
            ),
        },
{
    match read {
        ChunkRead::Missing(name) => Err(
            (
                join("Failed to read chunk range: Failed to open chunk file: ", name.as_str()),
                ErrorCode::NotFound,
            ),
        ),
        ChunkRead::Failed(why) => Err(
            (join("Failed to read chunk: ", why.as_str()), ErrorCode::InternalError),
        ),
        ChunkRead::Bytes(base) => {
            let old_len: usize = base.len();
            let ghost bv = base@;
            let (content, undo): (Vec<u8>, Vec<(usize, Vec<u8>)>) = rewrite(base, patches);
            let size: usize = content.len();
            let new_chunk_id: ChunkId = ChunkId::from_hash(
                compute_chunk_hash_at(content.as_slice(), chunk_file_offset, file_id),
            );
            let touched: bool = new_chunk_id != old_chunk_id || changed_by(
                old_len,
                &content,
                &undo,
                patches,
                Ghost(bv),
            );
            let journal: Option<PatchJournalEntry> = if !touched {
                None
            } else {
                Some(PatchJournalEntry { old_chunk_id, new_chunk_id, patches: undo, old_len })
            };
            Ok(Rewrite { new_chunk_id, size, content, journal })
        },
    }
}

/// A location carried over to the chunk that a rewrite produced.
pub open spec fn carried_over(
    from: Loc,
    new_chunk: ChunkId,
    size: usize,
    now_ms: u64,
    seq: Option<u64>,
    file: FileId,
) -> Loc {
    Loc {
        chunk_id: new_chunk,
        nodes: from.nodes,
        size: size,
        checksum: new_chunk.hash,
        file_offset: from.file_offset,
        written_at: Some(now_ms),
        client_write_seq: seq,
        file_id: Some(file),
    }
}

fn carry_over(
    from: &ChunkLocation,
    new_chunk: ChunkId,
    size: usize,
    now_ms: u64,
    seq: Option<u64>,
    file: FileId,
) -> (r: ChunkLocation)
    ensures
        r@ == carried_over(from@, new_chunk, size, now_ms, seq, file),
{
    ChunkLocation {
        chunk_id: new_chunk,
        nodes: from.nodes.clone(),
        size,
        checksum: new_chunk.hash,
        file_offset: from.file_offset,
        written_at: Some(now_ms),
        client_write_seq: seq,
        file_id: Some(file),
    }
}

/// What an optional location says.
pub open spec fn opt_loc(l: Option<ChunkLocation>) -> Option<Loc> {
    match l {
        Some(l) => Some(l@),
        None => None,
    }
}

/// Where a rewritten chunk is: where the chunk before was, or else as the seed says.
pub open spec fn location_of_rewrite(
    held: Option<Loc>,
    seed: Option<Loc>,
    new_chunk: ChunkId,
    size: usize,
    now_ms: u64,
    file: FileId,
) -> Option<Loc> {
    match held {
        Some(l) => Some(carried_over(l, new_chunk, size, now_ms, None, file)),
        None => match seed {
            Some(l) => Some(carried_over(l, new_chunk, size, now_ms, None, file)),
            None => None,
        },
    }
}

/// The location to record for a rewritten chunk: that of the chunk before, or else the seed,
/// carried over. It claims no client write sequence.
pub fn rewritten_location(
    held: Option<ChunkLocation>,
    seed: Option<ChunkLocation>,
    new_chunk_id: ChunkId,
    size: usize,
    now_ms: u64,
    file_id: FileId,
) -> (r: Option<ChunkLocation>)
    ensures
        match r {
            Some(l) => location_of_rewrite(
                opt_loc(held),
                opt_loc(seed),
                new_chunk_id,
                size,
                now_ms,
                file_id,
            ) == Some(l@),
            None => held is None && seed is None,
        },
{
    match held {
        Some(l) => Some(carry_over(&l, new_chunk_id, size, now_ms, None, file_id)),
        None => match seed {
            Some(l) => Some(carry_over(&l, new_chunk_id, size, now_ms, None, file_id)),
            None => None,
        },
    }
}

// ---------------------------------------------------------------------------
// Recovery.
// ---------------------------------------------------------------------------

/// What to do about one journal entry: the writes that restore the old chunk, in order, or
/// nothing if it was renamed already.
#[derive(Debug)]
pub struct RecoveryStep {
    pub old_chunk_id: ChunkId,
    pub restore: Option<Vec<(usize, Vec<u8>)>>,
    /// The length to which the chunk is cut after the writes.
    pub cut_to: usize,
}

/// The step is right for the entry.
pub open spec fn is_recovery(step: RecoveryStep, entry: PatchJournalEntry, old_exists: bool) -> bool {
    &&& step.old_chunk_id == entry.old_chunk_id
    &&& step.cut_to == entry.old_len
    &&& match step.restore {
        Some(writes) => old_exists && patch_list(writes@) == patch_list(entry.patches@).reverse(),
        None => !old_exists,
    }
}

/// A file after it was restored: the writes are made in order, and what is longer than the chunk
/// was is cut off.
pub open spec fn restored(file: Seq<u8>, writes: Seq<(usize, Seq<u8>)>, cut_to: nat) -> Seq<u8> {
    patched(file, writes).take(cut_to as int)
}

/// A journal entry can be cleared.
pub open spec fn entry_is_spent(writes_back: bool, restored: bool) -> bool {
    !writes_back || restored
}

impl RecoveryStep {
    /// Whether the journal entry can be cleared: there was nothing to restore, or it was
    /// restored. An entry whose restore failed stays for the next attempt.
    pub fn clears_entry(&self, restored: bool) -> (r: bool)
        ensures
            r == (self.restore is None || restored),
            r == entry_is_spent(self.restore is Some, restored),
    {
        self.restore.is_none() || restored
    }
}

/// What to do about each leftover journal entry. `old_exists` tells of each whether its old
/// chunk is still on disk.
pub fn recover_patch_journal(entries: &Vec<PatchJournalEntry>, old_exists: &Vec<bool>) -> (r: Vec<
    RecoveryStep,
>)
    requires
        old_exists@.len() == entries@.len(),
    ensures
        r@.len() == entries@.len(),
        forall|i: int|
            0 <= i < r@.len() ==> is_recovery(#[trigger] r@[i], entries@[i], old_exists@[i]),
{
    let mut out: Vec<RecoveryStep> = Vec::new();
    let mut i: usize = 0;
    while i < entries.len()
        invariant
            i <= entries@.len(),
            out@.len() == i,
            old_exists@.len() == entries@.len(),
            forall|j: int|
                0 <= j < i ==> is_recovery(#[trigger] out@[j], entries@[j], old_exists@[j]),
        decreases entries@.len() - i,
    {
        let restore: Option<Vec<(usize, Vec<u8>)>> = if old_exists[i] {
            Some(reversed(&entries[i].patches))
        } else {
            None
        };
        out.push(
            RecoveryStep {
                old_chunk_id: entries[i].old_chunk_id,
                restore,
                cut_to: entries[i].old_len,
            },
        );
        i += 1;
    }
    out
}

/// Recovery undoes an interrupted rewrite: whichever of the bytes that the patches cover had
/// been overwritten when it stopped, and however much longer the chunk had become, the recovery
/// gives it back exactly as it was.
pub proof fn recovery_undoes_interrupted_rewrite(
    r: Rewrite,
    base: Seq<u8>,
    patches: Seq<(usize, Seq<u8>)>,
    old_chunk_id: ChunkId,
    offset: u64,
    file_id: FileId,
    step: RecoveryStep,
    torn: Seq<u8>,
)
    requires
        is_rewrite(r, base, patches, old_chunk_id, offset, file_id),
        r.journal is Some,
        is_recovery(step, r.journal->0, true),
        base.len() <= torn.len() <= needed_len(base.len(), patches),
        forall|i: int|
            0 <= i < torn.len() && (forall|k: int|
                0 <= k < patches.len() ==> !crate::patch_bytes::covers(#[trigger] patches[k], i))
                ==> #[trigger] torn[i] == crate::patch_bytes::grown(base, patches)[i],
    ensures
        restored(torn, patch_list(step.restore->0@), step.cut_to as nat) == base,
{
    undo_restores_any_torn_write(base, patches, torn);
    let g = crate::patch_bytes::grown(base, patches);
    assert(patched(torn, patch_list(step.restore->0@)) == g);
    assert(g.take(base.len() as int) =~= base);
}

// ---------------------------------------------------------------------------
// Reading through patch tokens.
// ---------------------------------------------------------------------------

/// How to get at a chunk's current content.
#[derive(Debug)]
pub enum ContentSource {
    /// Read the chunk itself.
    Direct,
    /// Read this chunk, and keep the bytes in the cache under the identity asked for.
    Redirect(ChunkId),
    /// Read both and compose them.
    Compose { base_chunk_id: ChunkId, delta_chunk_id: ChunkId },
}

/// Where a chunk's content is to be had.
pub open spec fn content_source(in_patch: bool, state: Option<PatchState>) -> ContentSource {
    match state {
        Some(PatchState::Folded(c)) => if in_patch {
            ContentSource::Redirect(c)
        } else {
            ContentSource::Direct
        },
        Some(PatchState::Pending { base_chunk_id, delta_chunk_id }) => if in_patch {
            ContentSource::Compose { base_chunk_id, delta_chunk_id }
        } else {
            ContentSource::Direct
        },
        None => ContentSource::Direct,
    }
}

/// Where a chunk's content is to be had. `in_patch` tells whether the chunk is known to be part
/// of a patch; `state` is what is recorded of it then.
pub fn resolve_chunk_content(in_patch: bool, state: Option<PatchState>) -> (r: ContentSource)
    ensures
        match r {
            ContentSource::Direct => !in_patch || state is None,
            ContentSource::Redirect(c) => in_patch && state == Some(PatchState::Folded(c)),
            ContentSource::Compose { base_chunk_id, delta_chunk_id } => in_patch && state == Some(
                PatchState::Pending { base_chunk_id, delta_chunk_id },
            ),
        },
        r == content_source(in_patch, state),
{
    if !in_patch {
        return ContentSource::Direct;
    }
    match state {
        Some(PatchState::Folded(c)) => ContentSource::Redirect(c),
        Some(PatchState::Pending { base_chunk_id, delta_chunk_id }) => ContentSource::Compose {
            base_chunk_id,
            delta_chunk_id,
        },
        None => ContentSource::Direct,
    }
}

/// What came of composing a base and a delta.
#[derive(Debug)]
pub enum Composed {
    Bytes(Vec<u8>),
    /// The delta cannot be read, for this reason.
    Corrupt(String),
    /// A patch of the delta reaches past what a buffer can hold.
    TooLong,
}

/// Composes the logical content of a pending patch out of its base and its delta.
pub fn compose_one_patch(base: Vec<u8>, delta: &Vec<u8>) -> (r: Composed)
    ensures
        match delta_decoding(delta@) {
            Ok(patches) => if patches_fit(patches) {
                r is Bytes && r->Bytes_0@ == patched(base@, patches)
            } else {
                r is TooLong
            },
            Err(text) => r is Corrupt && r->Corrupt_0@ == text,
        },
{
    match decode_delta(delta.as_slice()) {
        Ok(patches) => if patches_fit_exec(&patches) {
            Composed::Bytes(compose(base, &patches))
        } else {
            Composed::TooLong
        },
        Err(text) => Composed::Corrupt(text),
    }
}

// ---------------------------------------------------------------------------
// The quick path.
// ---------------------------------------------------------------------------

/// Whether a token the client still uses has been consolidated into just the chunk that is
/// current.
pub fn patch_token_resolves_to(state: Option<PatchState>, current: ChunkId) -> (r: bool)
    ensures
        r == (state == Some(PatchState::Folded(current))),
{
    match state {
        Some(PatchState::Folded(stood_for)) => stood_for == current,
        _ => false,
    }
}

/// The chunk that a patch really applies to, if there is one.
pub open spec fn patch_base(chunk: ChunkId, state: Result<Option<PatchState>, String>) -> Option<
    ChunkId,
> {
    match state {
        Ok(Some(PatchState::Folded(stood_for))) => Some(stood_for),
        Ok(None) => Some(chunk),
        _ => None,
    }
}

/// The chunk that a patch really applies to: the one a consolidated token stands for, or the
/// named chunk itself if it is no token. A token that is still pending belongs to a
/// consolidation that failed, and is refused.
pub fn resolve_patch_base(chunk_id: ChunkId, state: Result<Option<PatchState>, String>) -> (r:
    Result<ChunkId, (String, ErrorCode)>)
    ensures
        match state {
            Ok(Some(PatchState::Folded(stood_for))) => r == Ok::<ChunkId, (String, ErrorCode)>(stood_for),
            Ok(Some(PatchState::Pending { base_chunk_id, delta_chunk_id })) => r is Err
                && fails_with(
                r->Err_0,
                "Previous fold for this chunk did not complete"@,
                ErrorCode::InternalError,
            ),
            Ok(None) => r == Ok::<ChunkId, (String, ErrorCode)>(chunk_id),
            Err(why) => r is Err && fails_with(
                r->Err_0,
                "Failed to resolve patch state: "@ + why@,
                ErrorCode::InternalError,
            ),
        },
        patch_base(chunk_id, state) == match r {
            Ok(c) => Some(c),
            Err(_) => None,
        },
{
    match state {
        Ok(Some(PatchState::Folded(stood_for))) => Ok(stood_for),
        Ok(Some(PatchState::Pending { base_chunk_id: _, delta_chunk_id: _ })) => Err(
            (
                "Previous fold for this chunk did not complete".to_owned(),
                ErrorCode::InternalError,
            ),
        ),
        Ok(None) => Ok(chunk_id),
        Err(why) => Err(
            (join("Failed to resolve patch state: ", why.as_str()), ErrorCode::InternalError),
        ),
    }
}

/// What the quick path stores for a patch, and what it answers with.
#[derive(Debug)]
pub struct PatchPlan {
    pub delta_bytes: Vec<u8>,
    pub delta_chunk_id: ChunkId,
    pub public_token: ChunkId,
    pub size: usize,
}

/// The plan is right: the delta is what the patches encode to and decodes to them again, its
/// identity is that of its bytes at the chunk's place, the token is made from that identity, and
/// the size is what base and patches need.
pub open spec fn is_plan(
    plan: PatchPlan,
    file_id: FileId,
    offset: u64,
    patches: Seq<(usize, Seq<u8>)>,
    base_size: usize,
) -> bool {
    &&& delta_encoding(patches) == Ok::<Seq<u8>, Seq<char>>(plan.delta_bytes@)
    &&& delta_decoding(plan.delta_bytes@) == Ok::<Seq<(usize, Seq<u8>)>, Seq<char>>(patches)
    &&& plan.delta_chunk_id == content_id_at(plan.delta_bytes@, offset, file_id)
    &&& plan.public_token == patch_token(plan.delta_chunk_id)
    &&& plan.size == needed_len(base_size as nat, patches)
}

/// Plans the quick path of a patch on `real_base`. `base_name` is how the base is called in a
/// refusal; `base_on_disk` tells whether its bytes are here, without which nothing is built on
/// it.
pub fn plan_patch(
    file_id: FileId,
    chunk_file_offset: u64,
    patches: &Vec<(usize, Vec<u8>)>,
    base_name: &str,
    base_on_disk: bool,
    base_size: usize,
) -> (r: Result<PatchPlan, (String, ErrorCode)>)
    requires
        patches_fit(patch_list(patches@)),
    ensures
        !base_on_disk ==> r is Err && fails_with(
            r->Err_0,
            "Failed to read chunk range: Failed to open chunk file for "@ + base_name@,
            ErrorCode::NotFound,
        ),
        base_on_disk ==> match delta_encoding(patch_list(patches@)) {
            Ok(bytes) => r is Ok && is_plan(
                r->Ok_0,
                file_id,
                chunk_file_offset,
                patch_list(patches@),
                base_size,
            ),
            Err(why) => r is Err && fails_with(
                r->Err_0,
                "Failed to serialize patch delta: "@ + why,
                ErrorCode::InternalError,
            ),
        },
{
    if !base_on_disk {
        return Err(
            (
                join("Failed to read chunk range: Failed to open chunk file for ", base_name),
                ErrorCode::NotFound,
            ),
        );
    }
    match encode_delta(patches) {
        Ok(delta_bytes) => {
            let delta_chunk_id: ChunkId = ChunkId::from_hash(
                compute_chunk_hash_at(delta_bytes.as_slice(), chunk_file_offset, file_id),
            );
            let token: ChunkId = public_token(delta_chunk_id);
            let size: usize = needed_len_exec(base_size, patches);
            Ok(PatchPlan { delta_bytes, delta_chunk_id, public_token: token, size })
        },
        Err(why) => Err(
            (join("Failed to serialize patch delta: ", why.as_str()), ErrorCode::InternalError),
        ),
    }
}

/// The location to record for a patch token: that of its base, carried over with the patch's own
/// client write sequence.
pub fn token_location(
    base: &ChunkLocation,
    plan: &PatchPlan,
    now_ms: u64,
    client_write_seq: Option<u64>,
    file_id: FileId,
) -> (r: ChunkLocation)
    ensures
        r@ == carried_over(
            base@,
            plan.public_token,
            plan.size,
            now_ms,
            client_write_seq,
            file_id,
        ),
{
    carry_over(base, plan.public_token, plan.size, now_ms, client_write_seq, file_id)
}

// ---------------------------------------------------------------------------
// Consolidation.
// ---------------------------------------------------------------------------

/// What came of consolidating a pending patch.
#[derive(Debug)]
pub enum FoldOutcome {
    Folded(Rewrite),
    CorruptDelta(String),
    TooLong,
    Failed(String, ErrorCode),
}

/// Consolidates a pending patch: reads its delta and rewrites its base. Where this fails the
/// patch stays pending.
pub fn run_single_fold(
    file_id: FileId,
    chunk_file_offset: u64,
    base_chunk_id: ChunkId,
    delta: &Vec<u8>,
    base: ChunkRead,
) -> (r: FoldOutcome)
    ensures
        match delta_decoding(delta@) {
            Err(why) => r is CorruptDelta && r->CorruptDelta_0@ == why,
            Ok(patches) => if !patches_fit(patches) {
                r is TooLong
            } else {
                match base {
                    ChunkRead::Bytes(b) => r is Folded && is_rewrite(
                        r->Folded_0,
                        b@,
                        patches,
                        base_chunk_id,
                        chunk_file_offset,
                        file_id,
                    ),
                    ChunkRead::Missing(name) => r is Failed && r->Failed_0@
                        == "Failed to read chunk range: Failed to open chunk file: "@ + name@
                        && r->Failed_1 == ErrorCode::NotFound,
                    ChunkRead::Failed(why) => r is Failed && r->Failed_0@
                        == "Failed to read chunk: "@ + why@ && r->Failed_1
                        == ErrorCode::InternalError,
                }
            },
        },
{
    match decode_delta(delta.as_slice()) {
        Err(why) => FoldOutcome::CorruptDelta(why),
        Ok(patches) => {
            if !patches_fit_exec(&patches) {
                return FoldOutcome::TooLong;
            }
            match full_rewrite_chunk(file_id, chunk_file_offset, base_chunk_id, &patches, base) {
                Ok(rw) => FoldOutcome::Folded(rw),
                Err((text, code)) => FoldOutcome::Failed(text, code),
            }
        },
    }
}

/// Consolidating what the quick path stored gives the very chunk that a direct rewrite of the
/// base with the same patches gives: the same bytes and the same identity.
pub proof fn fold_equals_direct_rewrite(
    plan: PatchPlan,
    file_id: FileId,
    offset: u64,
    patches: Seq<(usize, Seq<u8>)>,
    base_size: usize,
    base: Seq<u8>,
    base_chunk_id: ChunkId,
    decoded: Seq<(usize, Seq<u8>)>,
    folded: Rewrite,
    direct: Rewrite,
)
    requires
        is_plan(plan, file_id, offset, patches, base_size),
        delta_decoding(plan.delta_bytes@) == Ok::<Seq<(usize, Seq<u8>)>, Seq<char>>(decoded),
        is_rewrite(folded, base, decoded, base_chunk_id, offset, file_id),
        is_rewrite(direct, base, patches, base_chunk_id, offset, file_id),
    ensures
        folded.content@ == direct.content@,
        folded.new_chunk_id == direct.new_chunk_id,
        folded.size == direct.size,
        base.len() == base_size ==> folded.size == plan.size,
{
}

/// A pending patch reads as what its consolidation will hold.
pub proof fn pending_reads_as_folded(
    base: Seq<u8>,
    patches: Seq<(usize, Seq<u8>)>,
    composed: Seq<u8>,
    folded: Rewrite,
    base_chunk_id: ChunkId,
    offset: u64,
    file_id: FileId,
)
    requires
        composed == patched(base, patches),
        is_rewrite(folded, base, patches, base_chunk_id, offset, file_id),
    ensures
        composed == folded.content@,
{
}

/// A location with the patch's client write sequence, where it has none of its own.
pub open spec fn with_patch_seq(loc: Loc, delta_client_write_seq: Option<u64>) -> Loc {
    if loc.client_write_seq is None {
        Loc { client_write_seq: delta_client_write_seq, ..loc }
    } else {
        loc
    }
}

/// A patch's client write sequence is taken over into the location.
pub open spec fn takes_patch_seq(l: Loc, delta_client_write_seq: Option<u64>) -> bool {
    l.client_write_seq is None && delta_client_write_seq is Some
}

/// The consolidated chunk's location with the patch's client write sequence, where it has none
/// of its own and the patch had one. The second result tells whether it was changed.
pub fn corrected_location(loc: ChunkLocation, delta_client_write_seq: Option<u64>) -> (r: (
    ChunkLocation,
    bool,
))
    ensures
        r.1 == (loc@.client_write_seq is None && delta_client_write_seq is Some),
        r.0@ == with_patch_seq(loc@, delta_client_write_seq),
        r.1 == takes_patch_seq(loc@, delta_client_write_seq),
{
    if loc.client_write_seq.is_none() && delta_client_write_seq.is_some() {
        let mut corrected: ChunkLocation = loc;
        corrected.client_write_seq = delta_client_write_seq;
        (corrected, true)
    } else {
        (loc, false)
    }
}

// ---------------------------------------------------------------------------
// Handling the requests.
// ---------------------------------------------------------------------------

/// The reply that sends a client with an outdated identity to the current one.
pub open spec fn says_stale(r: Response, current: Loc) -> bool {
    match r {
        Response::ChunkStale { current_chunk_id, current_nodes } => current_chunk_id
            == current.chunk_id && current_nodes@ == current.nodes,
        _ => false,
    }
}

/// A client's identity is outdated if the map holds another one for the slot and the client's is
/// no token of it.
pub open spec fn outdated(current: Loc, claimed: ChunkId, state: Option<PatchState>) -> bool {
    current.chunk_id != claimed && state != Some(PatchState::Folded(current.chunk_id))
}

/// A single patch is turned away.
pub open spec fn turned_away(
    current: Option<Loc>,
    claimed: ChunkId,
    state: Option<PatchState>,
) -> bool {
    current is Some && outdated(current->0, claimed, state)
}

/// Whether a single patch is turned away because its chunk is outdated. `current` is what the
/// map holds for the slot, if the request names one; `state` is what is recorded of the claimed
/// chunk.
pub fn patch_chunk_stale(
    current: &Option<ChunkLocation>,
    claimed: ChunkId,
    state: Option<PatchState>,
) -> (r: Option<Response>)
    ensures
        match current {
            Some(loc) => if outdated(loc@, claimed, state) {
                r is Some && says_stale(r->0, loc@)
            } else {
                r is None
            },
            None => r is None,
        },
        r is Some <==> turned_away(opt_loc(*current), claimed, state),
{
    match current {
        Some(loc) => if loc.chunk_id != claimed && !patch_token_resolves_to(state, loc.chunk_id) {
            Some(
                Response::ChunkStale {
                    current_chunk_id: loc.chunk_id,
                    current_nodes: loc.nodes.clone(),
                },
            )
        } else {
            None
        },
        None => None,
    }
}

/// A run of patches is turned away.
pub open spec fn run_turned_away(
    current: Option<Loc>,
    claimed: ChunkId,
    state: Option<PatchState>,
    current_on_disk: bool,
) -> bool {
    current is Some && outdated(current->0, claimed, state) && current_on_disk
}

/// Whether a run of patches is turned away because its chunk is outdated. A current chunk that
/// is not on disk turns nobody away: there the map is the one that is outdated.
pub fn multi_patch_stale(
    current: &Option<ChunkLocation>,
    claimed: ChunkId,
    state: Option<PatchState>,
    current_on_disk: bool,
) -> (r: Option<Response>)
    ensures
        match current {
            Some(loc) => if outdated(loc@, claimed, state) && current_on_disk {
                r is Some && says_stale(r->0, loc@)
            } else {
                r is None
            },
            None => r is None,
        },
        r is Some <==> run_turned_away(opt_loc(*current), claimed, state, current_on_disk),
{
    if current_on_disk {
        patch_chunk_stale(current, claimed, state)
    } else {
        None
    }
}

/// The reply to a single patch.
pub fn patch_chunk_response(result: Result<(ChunkId, usize), (String, ErrorCode)>) -> (r: Response)
    ensures
        match result {
            Ok((new_chunk_id, size)) => r == (Response::PatchChunkResult { new_chunk_id, size }),
            Err((text, code)) => r.refuses(text@, code),
        },
{
    match result {
        Ok((new_chunk_id, size)) => Response::PatchChunkResult { new_chunk_id, size },
        Err((text, code)) => Response::refusal(text, code),
    }
}

/// The reply to a run of patches: on the full-rewrite path the time of the patch is given only
/// if it changed the chunk.
pub fn multi_patch_response(
    result: Result<(ChunkId, usize, Option<u64>), (String, ErrorCode)>,
) -> (r: Response)
    ensures
        match result {
            Ok((new_chunk_id, size, patch_ts)) => r == (Response::MultiPatchResult {
                new_chunk_id,
                size,
                patch_ts,
            }),
            Err((text, code)) => r.refuses(text@, code),
        },
{
    match result {
        Ok((new_chunk_id, size, patch_ts)) => Response::MultiPatchResult {
            new_chunk_id,
            size,
            patch_ts,
        },
        Err((text, code)) => Response::refusal(text, code),
    }
}

/// When a rewrite took effect, if it did.
pub open spec fn effective_at(old_chunk: ChunkId, new_chunk: ChunkId, now_ms: u64) -> Option<u64> {
    if new_chunk != old_chunk {
        Some(now_ms)
    } else {
        None
    }
}

/// When a rewrite took effect: nothing is reported for one that left the content as it was.
pub fn rewrite_time(old_chunk_id: ChunkId, new_chunk_id: ChunkId, now_ms: u64) -> (r: Option<u64>)
    ensures
        r == (if new_chunk_id != old_chunk_id {
            Some(now_ms)
        } else {
            None::<u64>
        }),
        r == effective_at(old_chunk_id, new_chunk_id, now_ms),
{
    if new_chunk_id != old_chunk_id {
        Some(now_ms)
    } else {
        None
    }
}

/// How many of a client's hints about coming chunks are followed.
pub const MAX_PREFETCH_HINTS: usize = 2;

/// The hints that are followed.
pub open spec fn hints_followed(hints: Seq<ChunkId>) -> Seq<ChunkId> {
    if hints.len() <= MAX_PREFETCH_HINTS {
        hints
    } else {
        hints.take(MAX_PREFETCH_HINTS as int)
    }
}

/// The hints that are followed: the first ones.
pub fn followed_hints(hints: Vec<ChunkId>) -> (r: Vec<ChunkId>)
    ensures
        r@ == (if hints@.len() <= MAX_PREFETCH_HINTS {
            hints@
        } else {
            hints@.take(MAX_PREFETCH_HINTS as int)
        }),
        r@ == hints_followed(hints@),
{
    let mut out: Vec<ChunkId> = hints;
    if out.len() > MAX_PREFETCH_HINTS {
        out.truncate(MAX_PREFETCH_HINTS);
        assert(out@ =~= hints@.take(MAX_PREFETCH_HINTS as int));
    }
    out
}

/// A chunk is read ahead.
pub open spec fn is_read_ahead(
    in_flight: bool,
    being_written: bool,
    recently_patched: bool,
    at_hand: bool,
    room: bool,
) -> bool {
    !in_flight && !being_written && !recently_patched && !at_hand && room
}

/// Whether a chunk is read ahead: only if nobody is reading it ahead or writing it, it is not
/// warm from a recent patch, its bytes are not at hand, and there is room for another read.
pub fn starts_prefetch(
    in_flight: bool,
    being_written: bool,
    recently_patched: bool,
    at_hand: bool,
    room: bool,
) -> (r: bool)
    ensures
        r == (!in_flight && !being_written && !recently_patched && !at_hand && room),
        r == is_read_ahead(in_flight, being_written, recently_patched, at_hand, room),
{
    if in_flight || being_written || recently_patched || at_hand {
        return false;
    }
    room
}

/// How many recently patched chunks are remembered.
pub const RECENTLY_PATCHED: usize = 64;

/// The chunks that were patched last, oldest first.
pub struct RecentlyPatched {
    queue: VecDeque<ChunkId>,
}

/// The queue after one more chunk: the oldest leaves if it was full.
pub open spec fn remembered(queue: Seq<ChunkId>, chunk: ChunkId) -> Seq<ChunkId> {
    (if queue.len() >= RECENTLY_PATCHED {
        queue.drop_first()
    } else {
        queue
    }).push(chunk)
}

impl View for RecentlyPatched {
    type V = Seq<ChunkId>;

    closed spec fn view(&self) -> Seq<ChunkId> {
        self.queue@
    }
}

/// The remembered chunks after a patch.
pub open spec fn after_patch(queue: Seq<ChunkId>, old_chunk: ChunkId, new_chunk: ChunkId) -> Seq<
    ChunkId,
> {
    if new_chunk != old_chunk {
        remembered(remembered(queue, old_chunk), new_chunk)
    } else {
        remembered(queue, old_chunk)
    }
}

impl RecentlyPatched {
    pub fn new() -> (r: RecentlyPatched)
        ensures
            r@ == Seq::<ChunkId>::empty(),
    {
        RecentlyPatched { queue: VecDeque::new() }
    }

    fn remember(&mut self, chunk: ChunkId)
        ensures
            final(self)@ == remembered(old(self)@, chunk),
    {
        if self.queue.len() >= RECENTLY_PATCHED {
            let _ = self.queue.pop_front();
            assert(self.queue@ =~= old(self)@.drop_first());
        }
        self.queue.push_back(chunk);
    }

    /// Remembers the chunk a patch was made on, and the one it produced if that is another.
    pub fn note_patch(&mut self, old_chunk: ChunkId, new_chunk: ChunkId)
        ensures
            final(self)@ == (if new_chunk != old_chunk {
                remembered(remembered(old(self)@, old_chunk), new_chunk)
            } else {
                remembered(old(self)@, old_chunk)
            }),
            old(self)@.len() <= RECENTLY_PATCHED ==> final(self)@.len() <= RECENTLY_PATCHED,
            final(self)@.contains(new_chunk),
            final(self)@ == after_patch(old(self)@, old_chunk, new_chunk),
    {
        self.remember(old_chunk);
        if new_chunk != old_chunk {
            self.remember(new_chunk);
        }
        assert(self@[self@.len() - 1] == new_chunk);
    }

    pub fn contains(&self, chunk: ChunkId) -> (r: bool)
        ensures
            r == self@.contains(chunk),
    {
        let mut i: usize = 0;
        while i < self.queue.len()
            invariant
                i <= self.queue@.len(),
                forall|j: int| 0 <= j < i ==> self.queue@[j] != chunk,
            decreases self.queue@.len() - i,
        {
            if self.queue[i] == chunk {
                assert(self.queue@[i as int] == chunk);
                return true;
            }
            i += 1;
        }
        false
    }
}

} // verus!
