//! Taking in a patch and consolidating it: the order of the steps.
use crate::delta::delta_decoding;
use crate::patch::{
    carried_over, is_plan, is_rewrite, location_of_rewrite, with_patch_seq, PatchPlan, PatchState,
    Rewrite,
};
use crate::protocol::fails_with;
use crate::rewrite_run::{a_rewrite_stores_its_content, at_the_end, first_step, untouched};
use crate::text::join;
use crate::types::{ChunkId, ErrorCode, FileId, Loc};
use vstd::prelude::*;

verus! {

// ---------------------------------------------------------------------------
// The quick path.
// ---------------------------------------------------------------------------

/// The steps of taking in a patch, in order.
#[derive(Clone, Copy, Debug, PartialEq, Eq, Structural)]
pub enum PatchStep {
    /// Find out which chunk the patch really applies to, and that its bytes are here.
    ResolveBase,
    /// Write the delta as a chunk of its own.
    WriteDelta,
    /// Record that the patch is pending.
    RecordPending,
    /// Store where the token is, with the nodes of the chunk that it stands in for.
    StoreLocation,
    /// Remove the record of where that chunk is.
    DropBaseLocation,
    /// Point the file's slot at the token.
    UpdateMap,
    /// Note that token and chunk are part of a patch.
    Track,
    /// Start the consolidation in the background, with the slot still locked.
    StartFold,
    /// Answer the client with the token.
    Answer,
}

/// The place of a step in the order.
pub open spec fn patch_rank(s: PatchStep) -> int {
    match s {
        PatchStep::ResolveBase => 0,
        PatchStep::WriteDelta => 1,
        PatchStep::RecordPending => 2,
        PatchStep::StoreLocation => 3,
        PatchStep::DropBaseLocation => 4,
        PatchStep::UpdateMap => 5,
        PatchStep::Track => 6,
        PatchStep::StartFold => 7,
        PatchStep::Answer => 8,
    }
}

/// What is said of a step that failed; nothing of one whose failure does not matter.
pub open spec fn patch_complaint(s: PatchStep) -> Option<Seq<char>> {
    match s {
        PatchStep::WriteDelta => Some("Failed to write patch delta: "@),
        PatchStep::RecordPending => Some("Failed to record patch state: "@),
        _ => None,
    }
}

/// A step can come behind another.
pub open spec fn patch_goes_on(done: PatchStep, failed: bool, next: PatchStep) -> bool {
    patch_rank(next) == patch_rank(done) + 1 && !(failed && patch_complaint(done) is Some)
}

/// Decides what follows a step of taking in a patch. A delta or a state that could not be stored
/// ends it, for the client must not be told of a patch that a restart would lose.
pub fn after_patch_step(done: PatchStep, failure: Option<String>) -> (r: Result<
    PatchStep,
    (String, ErrorCode),
>)
    requires
        done != PatchStep::Answer,
    ensures
        failure is Some && patch_complaint(done) is Some ==> r is Err && fails_with(
            r->Err_0,
            patch_complaint(done)->0 + (failure->0)@,
            ErrorCode::InternalError,
        ),
        failure is None || patch_complaint(done) is None ==> r is Ok,
        r is Ok ==> patch_goes_on(done, failure is Some, r->Ok_0),
{
    match done {
        PatchStep::ResolveBase => Ok(PatchStep::WriteDelta),
        PatchStep::WriteDelta => match failure {
            Some(why) => Err(
                (join("Failed to write patch delta: ", why.as_str()), ErrorCode::InternalError),
            ),
            None => Ok(PatchStep::RecordPending),
        },
        PatchStep::RecordPending => match failure {
            Some(why) => Err(
                (join("Failed to record patch state: ", why.as_str()), ErrorCode::InternalError),
            ),
            None => Ok(PatchStep::StoreLocation),
        },
        PatchStep::StoreLocation => Ok(PatchStep::DropBaseLocation),
        PatchStep::DropBaseLocation => Ok(PatchStep::UpdateMap),
        PatchStep::UpdateMap => Ok(PatchStep::Track),
        PatchStep::Track => Ok(PatchStep::StartFold),
        PatchStep::StartFold => Ok(PatchStep::Answer),
        PatchStep::Answer => Ok(PatchStep::Answer),
    }
}

/// A run of steps, each with whether it failed, from the first on.
pub open spec fn patch_run(steps: Seq<(PatchStep, bool)>) -> bool {
    &&& steps.len() > 0
    &&& steps[0].0 == PatchStep::ResolveBase
    &&& forall|i: int|
        0 <= i < steps.len() - 1 ==> patch_goes_on(
            (#[trigger] steps[i]).0,
            steps[i].1,
            steps[i + 1].0,
        )
}

proof fn patch_ranks_count_up(steps: Seq<(PatchStep, bool)>, k: int)
    requires
        patch_run(steps),
        0 <= k < steps.len(),
    ensures
        patch_rank(steps[k].0) == k,
    decreases k,
{
    if k > 0 {
        patch_ranks_count_up(steps, k - 1);
        assert(patch_goes_on(steps[k - 1].0, steps[k - 1].1, steps[k].0));
    }
}

/// A patch is acknowledged only once its delta is on disk and its state is recorded: whatever
/// steps were taken, both came before the answer and succeeded.
pub proof fn an_acknowledged_patch_is_recorded(steps: Seq<(PatchStep, bool)>)
    requires
        patch_run(steps),
        steps.last().0 == PatchStep::Answer,
    ensures
        steps.len() == 9,
        steps[1] == (PatchStep::WriteDelta, false),
        steps[2] == (PatchStep::RecordPending, false),
        steps[5].0 == PatchStep::UpdateMap,
{
    patch_ranks_count_up(steps, steps.len() - 1);
    patch_ranks_count_up(steps, 1);
    patch_ranks_count_up(steps, 2);
    patch_ranks_count_up(steps, 5);
    assert(patch_goes_on(steps[1].0, steps[1].1, steps[2].0));
    assert(patch_goes_on(steps[2].0, steps[2].1, steps[3].0));
}

// ---------------------------------------------------------------------------
// Consolidating.
// ---------------------------------------------------------------------------

/// The steps of consolidating a pending patch, in order.
#[derive(Clone, Copy, Debug, PartialEq, Eq, Structural)]
pub enum FoldStep {
    /// Read and decode the delta.
    ReadDelta,
    /// Rewrite the chunk that the patch applies to.
    Rewrite,
    /// Give the new chunk's location the patch's client write sequence.
    CorrectLocation,
    /// Record that the token stands for the new chunk.
    FlipState,
    /// Remove the delta's record and its bytes, unless they are those of the new chunk.
    DropDelta,
    /// Point the file's slot at the new chunk.
    UpdateMap,
    /// Tell every other online node where the new chunk is and what the token stands for.
    Tell,
    /// Note that the old chunk is not part of a patch any more.
    Untrack,
    Done,
}

/// The place of a step in the order.
pub open spec fn fold_rank(s: FoldStep) -> int {
    match s {
        FoldStep::ReadDelta => 0,
        FoldStep::Rewrite => 1,
        FoldStep::CorrectLocation => 2,
        FoldStep::FlipState => 3,
        FoldStep::DropDelta => 4,
        FoldStep::UpdateMap => 5,
        FoldStep::Tell => 6,
        FoldStep::Untrack => 7,
        FoldStep::Done => 8,
    }
}

/// A step can come behind another.
pub open spec fn fold_goes_on(done: FoldStep, failed: bool, next: FoldStep) -> bool {
    fold_rank(next) == fold_rank(done) + 1 && !(failed && fold_rank(done) <= 1)
}

/// Decides what follows a step of consolidating a patch. If the delta or the rewrite fails, the
/// patch stays as it is, and is read by composing it; every later failure is left to others.
pub fn after_fold_step(done: FoldStep, failed: bool) -> (r: Option<FoldStep>)
    requires
        done != FoldStep::Done,
    ensures
        r is None <==> failed && (done == FoldStep::ReadDelta || done == FoldStep::Rewrite),
        r is Some ==> fold_goes_on(done, failed, r->0),
{
    match done {
        FoldStep::ReadDelta => if failed {
            None
        } else {
            Some(FoldStep::Rewrite)
        },
        FoldStep::Rewrite => if failed {
            None
        } else {
            Some(FoldStep::CorrectLocation)
        },
        FoldStep::CorrectLocation => Some(FoldStep::FlipState),
        FoldStep::FlipState => Some(FoldStep::DropDelta),
        FoldStep::DropDelta => Some(FoldStep::UpdateMap),
        FoldStep::UpdateMap => Some(FoldStep::Tell),
        FoldStep::Tell => Some(FoldStep::Untrack),
        FoldStep::Untrack => Some(FoldStep::Done),
        FoldStep::Done => Some(FoldStep::Done),
    }
}

/// Whether the delta is removed once its patch is consolidated. Content that happens to be just
/// the delta's bytes has the delta's identity, and must stay.
pub fn drops_delta(delta: ChunkId, new_chunk: ChunkId) -> (r: bool)
    ensures
        r == (delta != new_chunk),
{
    delta != new_chunk
}

/// A run of steps, each with whether it failed, from the first on.
pub open spec fn fold_run(steps: Seq<(FoldStep, bool)>) -> bool {
    &&& steps.len() > 0
    &&& steps[0].0 == FoldStep::ReadDelta
    &&& forall|i: int|
        0 <= i < steps.len() - 1 ==> fold_goes_on(
            (#[trigger] steps[i]).0,
            steps[i].1,
            steps[i + 1].0,
        )
}

proof fn fold_ranks_count_up(steps: Seq<(FoldStep, bool)>, k: int)
    requires
        fold_run(steps),
        0 <= k < steps.len(),
    ensures
        fold_rank(steps[k].0) == k,
    decreases k,
{
    if k > 0 {
        fold_ranks_count_up(steps, k - 1);
        assert(fold_goes_on(steps[k - 1].0, steps[k - 1].1, steps[k].0));
    }
}

/// Readers are sent to the new chunk only once it is complete and its location is settled: the
/// state is changed only after a rewrite that succeeded and after the location was seen to.
pub proof fn a_fold_shows_only_once_it_is_settled(steps: Seq<(FoldStep, bool)>, k: int)
    requires
        fold_run(steps),
        0 <= k < steps.len(),
        steps[k].0 == FoldStep::FlipState,
    ensures
        k == 3,
        steps[0] == (FoldStep::ReadDelta, false),
        steps[1] == (FoldStep::Rewrite, false),
        steps[2].0 == FoldStep::CorrectLocation,
{
    fold_ranks_count_up(steps, k);
    fold_ranks_count_up(steps, 1);
    fold_ranks_count_up(steps, 2);
    assert(fold_goes_on(steps[0].0, steps[0].1, steps[1].0));
    assert(fold_goes_on(steps[1].0, steps[1].1, steps[2].0));
}

/// A delta is dropped only after its patch was consolidated, so that until then it can be read by
/// composing it.
pub proof fn a_delta_outlives_its_pending_patch(steps: Seq<(FoldStep, bool)>, k: int)
    requires
        fold_run(steps),
        0 <= k < steps.len(),
        steps[k].0 == FoldStep::DropDelta,
    ensures
        k == 4,
        steps[1] == (FoldStep::Rewrite, false),
        steps[3].0 == FoldStep::FlipState,
{
    fold_ranks_count_up(steps, k);
    fold_ranks_count_up(steps, 1);
    fold_ranks_count_up(steps, 3);
    assert(fold_goes_on(steps[1].0, steps[1].1, steps[2].0));
}

/// What a fold works on.
pub ghost struct FoldJob {
    pub file_id: FileId,
    pub offset: u64,
    /// The token that stands for the patch.
    pub token: ChunkId,
    /// The chunk that the patch applies to.
    pub base: ChunkId,
    pub delta: ChunkId,
    /// The client write sequence of the patch.
    pub seq: Option<u64>,
    pub now_ms: u64,
    /// The patches that the delta holds.
    pub patches: Seq<(usize, Seq<u8>)>,
    /// What the rewrite came to.
    pub folded: Rewrite,
}

impl FoldJob {
    /// The rewrite gives the chunk a new name.
    pub open spec fn renames(self) -> bool {
        self.folded.new_chunk_id != self.base
    }
}

/// What is stored on a node, as far as a fold changes it.
#[verifier::ext_equal]
pub ghost struct FoldStore {
    /// The chunks on disk.
    pub files: Map<ChunkId, Seq<u8>>,
    /// Where chunks are.
    pub locations: Map<ChunkId, Loc>,
    /// What tokens stand for.
    pub states: Map<ChunkId, PatchState>,
}

impl FoldStore {
    pub open spec fn location(self, chunk: ChunkId) -> Option<Loc> {
        if self.locations.dom().contains(chunk) {
            Some(self.locations[chunk])
        } else {
            None
        }
    }
}

/// The chunks on disk after the base was rewritten, step by step, to the end.
pub open spec fn files_rewritten(files: Map<ChunkId, Seq<u8>>, job: FoldJob) -> Map<
    ChunkId,
    Seq<u8>,
> {
    let end = at_the_end(
        untouched(files[job.base]),
        first_step(job.folded.journal is Some),
        files[job.base],
        job.patches,
        job.renames(),
    );
    if job.renames() {
        files.remove(job.base).insert(job.folded.new_chunk_id, end.new_file->0)
    } else {
        files.insert(job.base, end.old_file->0)
    }
}

/// The store after a step that succeeded.
pub open spec fn fold_effect(s: FoldStore, step: FoldStep, job: FoldJob) -> FoldStore {
    let new_chunk = job.folded.new_chunk_id;
    match step {
        FoldStep::Rewrite => FoldStore {
            files: files_rewritten(s.files, job),
            locations: {
                let kept = if job.renames() {
                    s.locations.remove(job.base)
                } else {
                    s.locations
                };
                match location_of_rewrite(
                    s.location(job.base),
                    s.location(job.token),
                    new_chunk,
                    job.folded.size,
                    job.now_ms,
                    job.file_id,
                ) {
                    Some(l) => kept.insert(new_chunk, l),
                    None => kept,
                }
            },
            ..s
        },
        FoldStep::CorrectLocation => FoldStore {
            locations: match s.location(new_chunk) {
                Some(l) => s.locations.insert(new_chunk, with_patch_seq(l, job.seq)),
                None => s.locations,
            },
            ..s
        },
        FoldStep::FlipState => FoldStore {
            states: s.states.insert(job.token, PatchState::Folded(new_chunk)),
            ..s
        },
        FoldStep::DropDelta => if job.delta != new_chunk {
            FoldStore {
                files: s.files.remove(job.delta),
                locations: s.locations.remove(job.delta),
                ..s
            }
        } else {
            s
        },
        _ => s,
    }
}

/// The store after a run of steps all of which succeeded.
pub open spec fn after_fold(s: FoldStore, steps: Seq<(FoldStep, bool)>, job: FoldJob) -> FoldStore
    decreases steps.len(),
{
    if steps.len() == 0 {
        s
    } else {
        fold_effect(after_fold(s, steps.drop_last(), job), steps.last().0, job)
    }
}

/// The patch that a job consolidates is pending in the store: its token stands for base and delta,
/// both are on disk, and the token has a location.
pub open spec fn is_pending(
    s: FoldStore,
    job: FoldJob,
    plan: PatchPlan,
    patches: Seq<(usize, Seq<u8>)>,
    base_size: usize,
) -> bool {
    &&& is_plan(plan, job.file_id, job.offset, patches, base_size)
    &&& job.token == plan.public_token
    &&& job.delta == plan.delta_chunk_id
    &&& s.states.dom().contains(job.token)
    &&& s.states[job.token] == (PatchState::Pending {
        base_chunk_id: job.base,
        delta_chunk_id: job.delta,
    })
    &&& s.files.dom().contains(job.base)
    &&& s.files.dom().contains(job.delta)
    &&& s.files[job.delta] == plan.delta_bytes@
    &&& s.locations.dom().contains(job.token)
}

proof fn fold_step_by_step(s: FoldStore, steps: Seq<(FoldStep, bool)>, job: FoldJob, n: int)
    requires
        fold_run(steps),
        0 < n <= steps.len(),
        forall|i: int| 0 <= i < steps.len() ==> !(#[trigger] steps[i]).1,
    ensures
        after_fold(s, steps.take(n), job) == fold_effect(
            after_fold(s, steps.take(n - 1), job),
            steps[n - 1].0,
            job,
        ),
        fold_rank(steps[n - 1].0) == n - 1,
{
    assert(steps.take(n).drop_last() =~= steps.take(n - 1));
    assert(steps.take(n).last() == steps[n - 1]);
    fold_ranks_count_up(steps, n - 1);
}

/// A fold that runs to its end leaves what the patch was meant to leave. The token stands for the
/// new chunk. Its identity and its bytes are those that a direct rewrite of the base with the
/// same patches gives. Its location is that of the chunk before, under the patch's own client
/// write sequence. The delta is gone unless it is the new chunk itself, and so is the base unless
/// its identity stayed.
pub proof fn a_finished_fold_holds_the_patch(
    s: FoldStore,
    job: FoldJob,
    plan: PatchPlan,
    patches: Seq<(usize, Seq<u8>)>,
    base_size: usize,
    direct: Rewrite,
    steps: Seq<(FoldStep, bool)>,
)
    requires
        is_pending(s, job, plan, patches, base_size),
        delta_decoding(s.files[job.delta]) == Ok::<Seq<(usize, Seq<u8>)>, Seq<char>>(job.patches),
        job.patches.len() <= usize::MAX,
        is_rewrite(job.folded, s.files[job.base], job.patches, job.base, job.offset, job.file_id),
        is_rewrite(direct, s.files[job.base], patches, job.base, job.offset, job.file_id),
        fold_run(steps),
        steps.last().0 == FoldStep::Done,
        forall|i: int| 0 <= i < steps.len() ==> !(#[trigger] steps[i]).1,
    ensures
        ({
            let end = after_fold(s, steps, job);
            let new_chunk = direct.new_chunk_id;
            let source = match s.location(job.base) {
                Some(l) => l,
                None => s.locations[job.token],
            };
            &&& end.states == s.states.insert(job.token, PatchState::Folded(new_chunk))
            &&& end.files.dom().contains(new_chunk)
            &&& end.files[new_chunk] == direct.content@
            &&& end.location(new_chunk) == Some(
                carried_over(source, new_chunk, direct.size, job.now_ms, job.seq, job.file_id),
            )
            &&& new_chunk != job.delta ==> !end.files.dom().contains(job.delta) && end.location(
                job.delta,
            ) is None
            &&& new_chunk != job.base ==> !end.files.dom().contains(job.base)
        }),
{
    crate::patch::fold_equals_direct_rewrite(
        plan,
        job.file_id,
        job.offset,
        patches,
        base_size,
        s.files[job.base],
        job.base,
        job.patches,
        job.folded,
        direct,
    );
    a_rewrite_stores_its_content(
        job.folded,
        s.files[job.base],
        job.patches,
        job.base,
        job.offset,
        job.file_id,
    );
    fold_ranks_count_up(steps, steps.len() - 1);
    assert(steps.len() == 9);
    let at = |n: int| after_fold(s, steps.take(n), job);
    assert(at(0) == s);
    fold_step_by_step(s, steps, job, 1);
    fold_step_by_step(s, steps, job, 2);
    fold_step_by_step(s, steps, job, 3);
    fold_step_by_step(s, steps, job, 4);
    fold_step_by_step(s, steps, job, 5);
    fold_step_by_step(s, steps, job, 6);
    fold_step_by_step(s, steps, job, 7);
    fold_step_by_step(s, steps, job, 8);
    fold_step_by_step(s, steps, job, 9);
    assert(steps.take(9) =~= steps);
}

} // verus!
