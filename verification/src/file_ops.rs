//! Deleting, renaming and purging files: the order of the steps, and the replies.
use crate::metadata::failed;
use crate::protocol::{DeleteQueueEntry, Response};
use crate::text::{join, same_text};
use crate::types::{ErrorCode, FileId, FileMetadata};
use vstd::prelude::*;

verus! {

// ---------------------------------------------------------------------------
// Deleting a file.
// ---------------------------------------------------------------------------

/// The steps of deleting a file, in order.
#[derive(Clone, Copy, Debug, PartialEq, Eq, Structural)]
pub enum DeleteStep {
    /// Mark the file as deleted, so that nothing under way brings it back, and take it from the
    /// records that are about to be pushed.
    Bury,
    /// Store the list of its chunks in the delete queue.
    Enqueue,
    /// Remove its record.
    RemoveRecord,
    /// Remove its path.
    RemovePath,
    /// Remove the records of where its chunks are.
    RemoveLocations,
    /// Forget its chunks in memory.
    Forget,
    /// Wake the worker that deletes the chunks.
    WakeDrain,
}

/// What follows a step.
#[derive(Debug)]
pub enum DeleteNext {
    Step(DeleteStep),
    Answer(Response),
}

/// The place of a step in the order.
pub open spec fn rank(s: DeleteStep) -> int {
    match s {
        DeleteStep::Bury => 0,
        DeleteStep::Enqueue => 1,
        DeleteStep::RemoveRecord => 2,
        DeleteStep::RemovePath => 3,
        DeleteStep::RemoveLocations => 4,
        DeleteStep::Forget => 5,
        DeleteStep::WakeDrain => 6,
    }
}

/// Decides what follows a step of deleting a file. A chunk list that could not be stored, or a
/// record that could not be removed, ends it; what else fails is left to the worker.
pub fn after_delete_step(done: DeleteStep, failure: Option<String>) -> (r: DeleteNext)
    ensures
        match done {
            DeleteStep::Enqueue => match failure {
                Some(why) => r is Answer && r->Answer_0.refuses(
                    "Failed to enqueue delete: "@ + why@,
                    ErrorCode::InternalError,
                ),
                None => r == DeleteNext::Step(DeleteStep::RemoveRecord),
            },
            DeleteStep::RemoveRecord => match failure {
                Some(why) => r is Answer && r->Answer_0.refuses(
                    "Failed to delete file: "@ + why@,
                    ErrorCode::InternalError,
                ),
                None => r == DeleteNext::Step(DeleteStep::RemovePath),
            },
            DeleteStep::WakeDrain => r is Answer && r->Answer_0.acknowledges(),
            _ => r is Step && rank(r->Step_0) == rank(done) + 1,
        },
        r is Step ==> may_follow(done, failure, r->Step_0),
{
    match done {
        DeleteStep::Bury => DeleteNext::Step(DeleteStep::Enqueue),
        DeleteStep::Enqueue => match failure {
            Some(why) => DeleteNext::Answer(failed("Failed to enqueue delete: ", why.as_str())),
            None => DeleteNext::Step(DeleteStep::RemoveRecord),
        },
        DeleteStep::RemoveRecord => match failure {
            Some(why) => DeleteNext::Answer(failed("Failed to delete file: ", why.as_str())),
            None => DeleteNext::Step(DeleteStep::RemovePath),
        },
        DeleteStep::RemovePath => DeleteNext::Step(DeleteStep::RemoveLocations),
        DeleteStep::RemoveLocations => DeleteNext::Step(DeleteStep::Forget),
        DeleteStep::Forget => DeleteNext::Step(DeleteStep::WakeDrain),
        DeleteStep::WakeDrain => DeleteNext::Answer(Response::Done { data: None }),
    }
}

/// A step can come behind another.
pub open spec fn may_follow(done: DeleteStep, failure: Option<String>, next: DeleteStep) -> bool {
    rank(next) == rank(done) + 1 && !(failure is Some && (done == DeleteStep::Enqueue || done
        == DeleteStep::RemoveRecord))
}

/// Nothing of a file is removed before its chunks are in the delete queue: whatever steps were
/// taken, the record's removal was preceded by a storing of the chunk list that succeeded.
pub proof fn chunks_are_queued_before_removal(
    steps: Seq<DeleteStep>,
    failures: Seq<Option<String>>,
    k: int,
)
    requires
        steps.len() == failures.len(),
        steps.len() > 0,
        steps[0] == DeleteStep::Bury,
        forall|i: int|
            0 <= i < steps.len() - 1 ==> may_follow(
                #[trigger] steps[i],
                failures[i],
                steps[i + 1],
            ),
        0 <= k < steps.len(),
        rank(steps[k]) >= rank(DeleteStep::RemoveRecord),
    ensures
        steps.len() > 2,
        steps[1] == DeleteStep::Enqueue,
        failures[1] is None,
{
    ranks_count_up(steps, failures, k);
    ranks_count_up(steps, failures, 1);
    assert(may_follow(steps[1], failures[1], steps[2]));
}

proof fn ranks_count_up(steps: Seq<DeleteStep>, failures: Seq<Option<String>>, k: int)
    requires
        steps.len() == failures.len(),
        steps.len() > 0,
        steps[0] == DeleteStep::Bury,
        forall|i: int|
            0 <= i < steps.len() - 1 ==> may_follow(
                #[trigger] steps[i],
                failures[i],
                steps[i + 1],
            ),
        0 <= k < steps.len(),
    ensures
        rank(steps[k]) == k,
    decreases k,
{
    if k > 0 {
        ranks_count_up(steps, failures, k - 1);
        assert(may_follow(steps[k - 1], failures[k - 1], steps[k - 1 + 1]));
    }
}

// ---------------------------------------------------------------------------
// Renaming a file.
// ---------------------------------------------------------------------------

/// The steps of renaming a file, in order.
#[derive(Clone, Copy, Debug, PartialEq, Eq, Structural)]
pub enum RenameStep {
    /// Find out which file has the old path.
    FindFile,
    /// Mark the file as being renamed, so that puts of it wait, and wait until what is queued for
    /// it has been stored.
    Settle,
    /// Read its record.
    ReadRecord,
    /// Store the record under its new path.
    StoreRecord,
    /// Send the record to every other online node.
    SendRecord,
    /// Remove the old path here.
    RemovePath,
    /// Tell every other online node to remove the old path.
    SendRemoval,
}

/// What follows a step. The mark goes with the answer.
#[derive(Debug)]
pub enum RenameNext {
    Step(RenameStep),
    Answer(Response),
}

/// What came of a step.
#[derive(Debug)]
pub enum StepResult {
    Fine,
    Missing,
    Failed(String),
}

/// The place of a step in the order.
pub open spec fn rename_rank(s: RenameStep) -> int {
    match s {
        RenameStep::FindFile => 0,
        RenameStep::Settle => 1,
        RenameStep::ReadRecord => 2,
        RenameStep::StoreRecord => 3,
        RenameStep::SendRecord => 4,
        RenameStep::RemovePath => 5,
        RenameStep::SendRemoval => 6,
    }
}

/// The rename depends on the step: the file has to be found, read and stored.
pub open spec fn rename_needs(s: RenameStep) -> bool {
    s == RenameStep::FindFile || s == RenameStep::ReadRecord || s == RenameStep::StoreRecord
}

/// The step leaves nothing to do: the file that was found has the path that it is to get.
pub open spec fn named_so_already(done: RenameStep, fine: bool, same_path: bool) -> bool {
    done == RenameStep::FindFile && fine && same_path
}

/// A step can come behind another.
pub open spec fn rename_goes_on(
    done: RenameStep,
    fine: bool,
    same_path: bool,
    next: RenameStep,
) -> bool {
    &&& rename_rank(next) == rename_rank(done) + 1
    &&& fine || !rename_needs(done)
    &&& !named_so_already(done, fine, same_path)
}

/// Decides what follows a step of renaming a file. The old path goes only once the record is
/// known under the new one; nodes that could not be reached do not stop it. A file that is to
/// keep its path is left alone.
pub fn after_rename_step(
    done: RenameStep,
    result: StepResult,
    old_path: &str,
    new_path: &str,
) -> (r: RenameNext)
    ensures
        rename_needs(done) ==> match result {
            StepResult::Fine => if named_so_already(done, true, old_path@ == new_path@) {
                r is Answer && r->Answer_0.acknowledges()
            } else {
                r is Step
            },
            StepResult::Missing => r is Answer && r->Answer_0.refuses(
                "File not found: "@ + old_path@,
                ErrorCode::NotFound,
            ),
            StepResult::Failed(why) => r is Answer && r->Answer_0.refuses(
                "Failed to rename file: "@ + why@,
                ErrorCode::InternalError,
            ),
        },
        !rename_needs(done) && done != RenameStep::SendRemoval ==> r is Step,
        done == RenameStep::SendRemoval ==> r is Answer && r->Answer_0.acknowledges(),
        r is Step ==> rename_goes_on(done, result is Fine, old_path@ == new_path@, r->Step_0),
{
    match done {
        RenameStep::Settle => {
            return RenameNext::Step(RenameStep::ReadRecord);
        },
        RenameStep::SendRecord => {
            return RenameNext::Step(RenameStep::RemovePath);
        },
        RenameStep::RemovePath => {
            return RenameNext::Step(RenameStep::SendRemoval);
        },
        RenameStep::SendRemoval => {
            return RenameNext::Answer(Response::Done { data: None });
        },
        _ => {},
    }
    match result {
        StepResult::Fine => match done {
            RenameStep::FindFile => if same_text(old_path, new_path) {
                RenameNext::Answer(Response::Done { data: None })
            } else {
                RenameNext::Step(RenameStep::Settle)
            },
            RenameStep::ReadRecord => RenameNext::Step(RenameStep::StoreRecord),
            _ => RenameNext::Step(RenameStep::SendRecord),
        },
        StepResult::Missing => RenameNext::Answer(
            Response::refusal(join("File not found: ", old_path), ErrorCode::NotFound),
        ),
        StepResult::Failed(why) => RenameNext::Answer(
            failed("Failed to rename file: ", why.as_str()),
        ),
    }
}

/// A run of steps, each with whether it went well, from the first on.
pub open spec fn rename_run(steps: Seq<(RenameStep, bool)>, same_path: bool) -> bool {
    &&& steps.len() > 0
    &&& steps[0].0 == RenameStep::FindFile
    &&& forall|i: int|
        0 <= i < steps.len() - 1 ==> rename_goes_on(
            (#[trigger] steps[i]).0,
            steps[i].1,
            same_path,
            steps[i + 1].0,
        )
}

/// The run ends with an acknowledgement.
pub open spec fn rename_acknowledged(steps: Seq<(RenameStep, bool)>, same_path: bool) -> bool {
    let (step, fine) = steps.last();
    step == RenameStep::SendRemoval || named_so_already(step, fine, same_path)
}

/// The paths under which files are found here, after so many steps of a run.
pub open spec fn paths_after(
    paths: Map<Seq<char>, FileId>,
    file: FileId,
    old_path: Seq<char>,
    new_path: Seq<char>,
    steps: Seq<(RenameStep, bool)>,
) -> Map<Seq<char>, FileId>
    decreases steps.len(),
{
    if steps.len() == 0 {
        paths
    } else {
        let sofar = paths_after(paths, file, old_path, new_path, steps.drop_last());
        let (step, fine) = steps.last();
        if step == RenameStep::StoreRecord && fine {
            sofar.insert(new_path, file)
        } else if step == RenameStep::RemovePath && fine {
            sofar.remove(old_path)
        } else {
            sofar
        }
    }
}

proof fn rename_places(
    paths: Map<Seq<char>, FileId>,
    file: FileId,
    old_path: Seq<char>,
    new_path: Seq<char>,
    steps: Seq<(RenameStep, bool)>,
)
    requires
        rename_run(steps, false),
        old_path != new_path,
        paths.dom().contains(old_path),
        paths[old_path] == file,
    ensures
        rename_rank(steps.last().0) == steps.len() - 1,
        ({
            let now = paths_after(paths, file, old_path, new_path, steps);
            let stored = now.dom().contains(new_path) && now[new_path] == file;
            let found = now.dom().contains(old_path) && now[old_path] == file;
            &&& steps.len() <= 5 ==> found
            &&& steps.len() > 4 || (steps.len() == 4 && steps.last().1) ==> stored
            &&& steps.len() >= 6 && steps[5].1 ==> !now.dom().contains(old_path)
        }),
    decreases steps.len(),
{
    let init = steps.drop_last();
    if init.len() > 0 {
        assert forall|i: int| 0 <= i < init.len() - 1 implies rename_goes_on(
            (#[trigger] init[i]).0,
            init[i].1,
            false,
            init[i + 1].0,
        ) by {
            assert(init[i] == steps[i]);
            assert(init[i + 1] == steps[i + 1]);
        }
        rename_places(paths, file, old_path, new_path, init);
        assert(init.last() == steps[steps.len() - 2]);
        assert(rename_goes_on(
            steps[steps.len() - 2].0,
            steps[steps.len() - 2].1,
            false,
            steps[steps.len() - 2 + 1].0,
        ));
        if steps.len() > 6 {
            assert(init[5] == steps[5]);
        }
        assert(steps.last() == steps[steps.len() - 1]);
        let before = paths_after(paths, file, old_path, new_path, init);
        let now = paths_after(paths, file, old_path, new_path, steps);
        let (step, fine) = steps.last();
        assert(now == (if step == RenameStep::StoreRecord && fine {
            before.insert(new_path, file)
        } else if step == RenameStep::RemovePath && fine {
            before.remove(old_path)
        } else {
            before
        }));
        assert(step == RenameStep::StoreRecord <==> steps.len() == 4);
        assert(step == RenameStep::RemovePath <==> steps.len() == 6);
        assert(init.last().0 == RenameStep::StoreRecord <==> steps.len() == 5);
    } else {
        assert(init =~= Seq::<(RenameStep, bool)>::empty());
        assert(steps.last() == steps[0]);
        assert(paths_after(paths, file, old_path, new_path, init) == paths);
    }
}

/// A file that is to keep its path is found, and that is all.
proof fn nothing_follows_the_same_path(
    paths: Map<Seq<char>, FileId>,
    file: FileId,
    path: Seq<char>,
    steps: Seq<(RenameStep, bool)>,
)
    requires
        rename_run(steps, true),
    ensures
        steps.len() == 1,
        paths_after(paths, file, path, path, steps) == paths,
{
    if steps.len() > 1 {
        assert(rename_goes_on(steps[0].0, steps[0].1, true, steps[1].0));
    }
    assert(steps.drop_last() =~= Seq::<(RenameStep, bool)>::empty());
    assert(paths_after(paths, file, path, path, steps.drop_last()) == paths);
    assert(steps.last() == steps[0]);
}

/// At every moment of a rename the file is found under its old path or under its new one.
pub proof fn a_renamed_file_is_always_found(
    paths: Map<Seq<char>, FileId>,
    file: FileId,
    old_path: Seq<char>,
    new_path: Seq<char>,
    steps: Seq<(RenameStep, bool)>,
)
    requires
        rename_run(steps, old_path == new_path),
        paths.dom().contains(old_path),
        paths[old_path] == file,
    ensures
        ({
            let now = paths_after(paths, file, old_path, new_path, steps);
            (now.dom().contains(old_path) && now[old_path] == file) || (now.dom().contains(new_path)
                && now[new_path] == file)
        }),
{
    if old_path == new_path {
        nothing_follows_the_same_path(paths, file, old_path, steps);
    } else {
        rename_places(paths, file, old_path, new_path, steps);
    }
}

/// After an acknowledged rename the file is found under its new path, and its old path, if that is
/// another one, is gone unless its removal failed.
pub proof fn an_acknowledged_rename_took_effect(
    paths: Map<Seq<char>, FileId>,
    file: FileId,
    old_path: Seq<char>,
    new_path: Seq<char>,
    steps: Seq<(RenameStep, bool)>,
)
    requires
        rename_run(steps, old_path == new_path),
        rename_acknowledged(steps, old_path == new_path),
        paths.dom().contains(old_path),
        paths[old_path] == file,
    ensures
        ({
            let now = paths_after(paths, file, old_path, new_path, steps);
            &&& now.dom().contains(new_path) && now[new_path] == file
            &&& old_path != new_path ==> steps.len() == 7
            &&& old_path != new_path && steps[5].1 ==> !now.dom().contains(old_path)
        }),
{
    if old_path == new_path {
        nothing_follows_the_same_path(paths, file, old_path, steps);
    } else {
        rename_places(paths, file, old_path, new_path, steps);
    }
}

// ---------------------------------------------------------------------------
// Purging and other plain replies.
// ---------------------------------------------------------------------------

/// What to do about a purge of a file's record: remove it, or answer.
#[derive(Debug)]
pub enum Purge {
    Remove(FileId),
    Answer(Response),
}

/// Decides on a purge by path.
pub fn purge_by_path(found: Result<Option<FileMetadata>, String>, path: &str) -> (r: Purge)
    ensures
        match found {
            Ok(Some(m)) => r == Purge::Remove(m.id),
            Ok(None) => r is Answer && r->Answer_0.refuses(
                "File not found: "@ + path@,
                ErrorCode::NotFound,
            ),
            Err(why) => r is Answer && r->Answer_0.refuses(
                "Failed to get file metadata: "@ + why@,
                ErrorCode::InternalError,
            ),
        },
{
    match found {
        Ok(Some(m)) => Purge::Remove(m.id),
        Ok(None) => Purge::Answer(
            Response::refusal(join("File not found: ", path), ErrorCode::NotFound),
        ),
        Err(why) => Purge::Answer(failed("Failed to get file metadata: ", why.as_str())),
    }
}

/// The reply to a purge, and whether the other nodes are told: only by the node that it was asked
/// of, or every purge would go round for ever.
pub fn purged(failure: Option<String>, propagate: bool) -> (r: (Response, bool))
    ensures
        match failure {
            Some(why) => r.0.refuses(
                "Failed to purge file metadata: "@ + why@,
                ErrorCode::InternalError,
            ) && !r.1,
            None => r.0.acknowledges() && r.1 == propagate,
        },
{
    match failure {
        Some(why) => (failed("Failed to purge file metadata: ", why.as_str()), false),
        None => (Response::Done { data: None }, propagate),
    }
}

/// The reply to something that either worked or failed: an acknowledgement, or what was attempted
/// and why it failed.
pub fn plain_reply(failure: Option<String>, attempt: &str) -> (r: Response)
    ensures
        match failure {
            Some(why) => r.refuses(attempt@ + why@, ErrorCode::InternalError),
            None => r.acknowledges(),
        },
{
    match failure {
        Some(why) => failed(attempt, why.as_str()),
        None => Response::Done { data: None },
    }
}

/// The reply to removing a chunk because the leader said so.
pub fn replica_deleted(failure: Option<String>) -> (r: Response)
    ensures
        match failure {
            Some(why) => r.refuses("Failed to delete chunk: "@ + why@, ErrorCode::IOError),
            None => r.acknowledges(),
        },
{
    match failure {
        Some(why) => Response::refusal(
            join("Failed to delete chunk: ", why.as_str()),
            ErrorCode::IOError,
        ),
        None => Response::Done { data: None },
    }
}

/// The reply to pushing a chunk to another node.
#[derive(Debug)]
pub enum PushResult {
    Taken,
    /// The other node answered with something else.
    Rejected(String),
    /// The other node could not be reached.
    Unreachable(String),
}

pub fn pushed(result: PushResult) -> (r: Response)
    ensures
        match result {
            PushResult::Taken => r.acknowledges(),
            PushResult::Rejected(what) => r.refuses(
                "Target rejected chunk: "@ + what@,
                ErrorCode::IOError,
            ),
            PushResult::Unreachable(why) => r.refuses(
                "Failed to push chunk to target: "@ + why@,
                ErrorCode::IOError,
            ),
        },
{
    match result {
        PushResult::Taken => Response::Done { data: None },
        PushResult::Rejected(what) => Response::refusal(
            join("Target rejected chunk: ", what.as_str()),
            ErrorCode::IOError,
        ),
        PushResult::Unreachable(why) => Response::refusal(
            join("Failed to push chunk to target: ", why.as_str()),
            ErrorCode::IOError,
        ),
    }
}

/// The reply to a request for the delete queue.
pub fn delete_queue_reply(queue: Result<Vec<DeleteQueueEntry>, String>) -> (r: Response)
    ensures
        match queue {
            Ok(list) => r == (Response::DeleteQueue { entries: list }),
            Err(why) => r.refuses(
                "Failed to read delete queue: "@ + why@,
                ErrorCode::InternalError,
            ),
        },
{
    match queue {
        Ok(entries) => Response::DeleteQueue { entries },
        Err(why) => failed("Failed to read delete queue: ", why.as_str()),
    }
}

/// The reply to a request for the inventory, whose failure is told as it is.
pub fn inventory_reply(inventory: Result<Vec<(FileId, u64)>, String>) -> (r: Response)
    ensures
        match inventory {
            Ok(list) => r == (Response::FileInventory { entries: list }),
            Err(why) => r.refuses(why@, ErrorCode::InternalError),
        },
{
    match inventory {
        Ok(entries) => Response::FileInventory { entries },
        Err(why) => Response::refusal(why, ErrorCode::InternalError),
    }
}

/// The reply to a request for records, whose failure is told as it is.
pub fn batch_reply(items: Result<Vec<FileMetadata>, String>) -> (r: Response)
    ensures
        match items {
            Ok(list) => r == (Response::FileMetadataBatch { items: list }),
            Err(why) => r.refuses(why@, ErrorCode::InternalError),
        },
{
    match items {
        Ok(items) => Response::FileMetadataBatch { items },
        Err(why) => Response::refusal(why, ErrorCode::InternalError),
    }
}

} // verus!
