//! In which order the steps of longer operations are taken, and what stops them.
use vstd::prelude::*;

use crate::append::{begun, AppendState};
use crate::catchup::{CatchupPhase, CatchupState};
use crate::chunk_file::{next_file_step, FileStep};
use crate::chunk_map::{filled_up, with_place};
use crate::drain::{DrainState, DrainStep};
use crate::file_ops::{
    may_follow, named_so_already, rename_goes_on, rename_needs, DeleteStep, RenameStep,
};
use crate::loops::DisseminationState;
use crate::patch_flow::{fold_goes_on, patch_complaint, patch_goes_on, FoldStep, PatchStep};
use crate::protocol::Response;
use crate::record_laws::filled_up_members;
use crate::repair::tells;
use crate::rewrite_run::{first_step, next_step, step_complaint, written, RewriteStep};
use crate::server::ServerState;
use crate::storage::same_answers;
use crate::types::{ErrorCode, FileId, Loc};
use crate::write_path::AppendStart;

verus! {

/// A file is deleted in this order: it is buried, its chunks are queued, its record, its path and
/// its locations are removed, its chunks are forgotten, and the worker is woken. A queue entry
/// that could not be stored, or a record that could not be removed, ends it.
pub proof fn a_deletion_takes_its_steps_in_order(
    done: DeleteStep,
    failure: Option<String>,
    next: DeleteStep,
)
    ensures
        may_follow(done, failure, next) ==> match next {
            DeleteStep::Bury => false,
            DeleteStep::Enqueue => done == DeleteStep::Bury,
            DeleteStep::RemoveRecord => done == DeleteStep::Enqueue && failure is None,
            DeleteStep::RemovePath => done == DeleteStep::RemoveRecord && failure is None,
            DeleteStep::RemoveLocations => done == DeleteStep::RemovePath,
            DeleteStep::Forget => done == DeleteStep::RemoveLocations,
            DeleteStep::WakeDrain => done == DeleteStep::Forget,
        },
        failure is None && done != DeleteStep::WakeDrain ==> exists|n: DeleteStep|
            may_follow(done, failure, n),
{
    if failure is None {
        match done {
            DeleteStep::Bury => {
                assert(may_follow(done, failure, DeleteStep::Enqueue));
            },
            DeleteStep::Enqueue => {
                assert(may_follow(done, failure, DeleteStep::RemoveRecord));
            },
            DeleteStep::RemoveRecord => {
                assert(may_follow(done, failure, DeleteStep::RemovePath));
            },
            DeleteStep::RemovePath => {
                assert(may_follow(done, failure, DeleteStep::RemoveLocations));
            },
            DeleteStep::RemoveLocations => {
                assert(may_follow(done, failure, DeleteStep::Forget));
            },
            DeleteStep::Forget => {
                assert(may_follow(done, failure, DeleteStep::WakeDrain));
            },
            DeleteStep::WakeDrain => {},
        }
    }
}

/// A file is renamed in this order: it is found, settled and read, stored under the new path and
/// sent to the others, and only then the old path is removed here and there. Just the finding,
/// the reading and the storing can stop it, and a file that has the new path already is left
/// alone.
pub proof fn a_rename_takes_its_steps_in_order(
    done: RenameStep,
    fine: bool,
    same_path: bool,
    next: RenameStep,
)
    ensures
        rename_goes_on(done, fine, same_path, next) <==> match next {
            RenameStep::FindFile => false,
            RenameStep::Settle => done == RenameStep::FindFile && fine && !same_path,
            RenameStep::ReadRecord => done == RenameStep::Settle,
            RenameStep::StoreRecord => done == RenameStep::ReadRecord && fine,
            RenameStep::SendRecord => done == RenameStep::StoreRecord && fine,
            RenameStep::RemovePath => done == RenameStep::SendRecord,
            RenameStep::SendRemoval => done == RenameStep::RemovePath,
        },
        rename_needs(done) <==> done == RenameStep::FindFile || done == RenameStep::ReadRecord
            || done == RenameStep::StoreRecord,
        named_so_already(done, fine, same_path) <==> done == RenameStep::FindFile && fine
            && same_path,
{
}

/// A chunk's file is written in this order: the directory is made, the temporary file is created
/// and written, made durable by itself where flushes are not shared, and renamed; where they are,
/// the shared flush follows. Only then the caller is told.
pub proof fn a_chunk_file_takes_its_steps_in_order(done: FileStep)
    ensures
        next_file_step(FileStep::MakeDirectory, true) == FileStep::Create,
        next_file_step(FileStep::MakeDirectory, false) == FileStep::Create,
        next_file_step(FileStep::Create, true) == FileStep::Write,
        next_file_step(FileStep::Create, false) == FileStep::Write,
        next_file_step(done, false) == FileStep::Rename <==> done == FileStep::Sync,
        next_file_step(done, false) == FileStep::Sync <==> done == FileStep::Write,
        next_file_step(FileStep::Rename, false) == FileStep::Finish,
        next_file_step(FileStep::Write, true) == FileStep::Rename,
        next_file_step(done, true) == FileStep::Flush <==> done == FileStep::Rename,
        next_file_step(FileStep::Flush, true) == FileStep::Finish,
{
}

/// A patch is taken in in this order: the base is resolved, the delta written, the patch recorded
/// as pending; then the token's location is stored, the base's dropped, the map updated, the
/// patch tracked and the consolidation started, and only then the client answered. A delta or a
/// record that could not be stored ends it.
pub proof fn a_patch_takes_its_steps_in_order(done: PatchStep, failed: bool, next: PatchStep)
    ensures
        patch_goes_on(done, failed, next) <==> match next {
            PatchStep::ResolveBase => false,
            PatchStep::WriteDelta => done == PatchStep::ResolveBase,
            PatchStep::RecordPending => done == PatchStep::WriteDelta && !failed,
            PatchStep::StoreLocation => done == PatchStep::RecordPending && !failed,
            PatchStep::DropBaseLocation => done == PatchStep::StoreLocation,
            PatchStep::UpdateMap => done == PatchStep::DropBaseLocation,
            PatchStep::Track => done == PatchStep::UpdateMap,
            PatchStep::StartFold => done == PatchStep::Track,
            PatchStep::Answer => done == PatchStep::StartFold,
        },
        patch_complaint(done) is Some <==> done == PatchStep::WriteDelta || done
            == PatchStep::RecordPending,
{
}

/// A patch is consolidated in this order: the delta is read, the base rewritten, the location
/// corrected, the token turned over; only then the delta is dropped, the map updated, the others
/// told, and the patch untracked. Just a delta that cannot be read, or a base that cannot be
/// rewritten, stops it.
pub proof fn a_fold_takes_its_steps_in_order(done: FoldStep, failed: bool, next: FoldStep)
    ensures
        fold_goes_on(done, failed, next) <==> match next {
            FoldStep::ReadDelta => false,
            FoldStep::Rewrite => done == FoldStep::ReadDelta && !failed,
            FoldStep::CorrectLocation => done == FoldStep::Rewrite && !failed,
            FoldStep::FlipState => done == FoldStep::CorrectLocation,
            FoldStep::DropDelta => done == FoldStep::FlipState,
            FoldStep::UpdateMap => done == FoldStep::DropDelta,
            FoldStep::Tell => done == FoldStep::UpdateMap,
            FoldStep::Untrack => done == FoldStep::Tell,
            FoldStep::Done => done == FoldStep::Untrack,
        },
{
}

/// A rewrite touches the chunk only once the way back is stored, and the way back goes only once
/// all bytes are written, durable, and under the name that the chunk gets. A chunk that gets a
/// new name is renamed, and forgotten under the old one; one that keeps its name is dropped from
/// the cache.
pub proof fn a_rewrite_takes_its_steps_in_order(patches: nat, renames: bool, k: usize)
    requires
        patches <= usize::MAX,
    ensures
        first_step(true) == RewriteStep::StoreJournal,
        first_step(false) == RewriteStep::StoreLocation,
        next_step(RewriteStep::StoreJournal, patches, renames) == RewriteStep::Open,
        next_step(RewriteStep::Open, patches, renames) == RewriteStep::Grow,
        patches > 0 ==> next_step(RewriteStep::Grow, patches, renames) == RewriteStep::Seek(0),
        patches == 0 ==> next_step(RewriteStep::Grow, patches, renames) == RewriteStep::Sync,
        next_step(RewriteStep::Seek(k), patches, renames) == RewriteStep::Write(k),
        k + 1 < patches ==> next_step(RewriteStep::Write(k), patches, renames)
            == RewriteStep::Seek((k + 1) as usize),
        k + 1 >= patches ==> next_step(RewriteStep::Write(k), patches, renames)
            == RewriteStep::Sync,
        renames ==> next_step(RewriteStep::Sync, patches, renames) == RewriteStep::MakeDirectory,
        !renames ==> next_step(RewriteStep::Sync, patches, renames) == RewriteStep::ForgetCached,
        next_step(RewriteStep::MakeDirectory, patches, renames) == RewriteStep::Rename,
        next_step(RewriteStep::Rename, patches, renames) == RewriteStep::ForgetOld,
        next_step(RewriteStep::ForgetOld, patches, renames) == RewriteStep::ClearJournal,
        next_step(RewriteStep::ForgetCached, patches, renames) == RewriteStep::ClearJournal,
        next_step(RewriteStep::ClearJournal, patches, renames) == RewriteStep::StoreLocation,
        next_step(RewriteStep::StoreLocation, patches, renames) == RewriteStep::Done,
{
}

/// Every failure of a rewrite counts until its bytes are where they belong; after that just a way
/// back that stays beside a chunk that kept its name does.
pub proof fn a_rewrite_fails_until_its_bytes_are_there(step: RewriteStep, renames: bool)
    ensures
        step_complaint(step, renames) is None <==> step is ForgetOld || step is ForgetCached
            || step is StoreLocation || step is Done || (step is ClearJournal && renames),
{
}

/// Writing bytes at a place of a file changes just those, and nothing where there are none.
pub proof fn a_write_changes_just_its_bytes(file: Seq<u8>, at: usize, bytes: Seq<u8>, i: int)
    requires
        at + bytes.len() <= file.len(),
        0 <= i < file.len(),
    ensures
        written(file, (at, bytes)).len() == file.len(),
        at <= i < at + bytes.len() ==> written(file, (at, bytes))[i] == bytes[i - at],
        !(at <= i < at + bytes.len()) ==> written(file, (at, bytes))[i] == file[i],
{
    crate::content_laws::a_patch_writes_just_its_bytes(file, at, bytes, i);
}

/// A deletion is drained in this order: record, path, chunks, what is known of them and what is to
/// be healed of them here; then every peer in turn; and only if all of them agreed it leaves the
/// queue here, and then the others'. A record that could not be removed here ends it at once, and
/// a peer that did not agree ends it once all were asked.
pub proof fn a_drain_takes_its_steps_in_order(s: DrainState, fine: bool)
    ensures
        s.step == DrainStep::RemoveRecord ==> s.after(fine).step == if fine {
            DrainStep::RemovePath
        } else {
            DrainStep::Over
        },
        s.step == DrainStep::RemovePath ==> s.after(fine).step == DrainStep::DropChunks,
        s.step == DrainStep::DropChunks ==> s.after(fine).step == DrainStep::Forget,
        s.step == DrainStep::Forget ==> s.after(fine).step == DrainStep::PruneHealing,
        s.step == DrainStep::PruneHealing && s.acks.len() == 0 && s.peers.len() > 0 ==> s.after(
            fine,
        ).step == DrainStep::Tell(s.peers[0]),
        s.step == DrainStep::PruneHealing && s.acks.len() == 0 && s.peers.len() == 0 ==> s.after(
            fine,
        ).step == DrainStep::Dequeue,
        s.step is Tell ==> s.after(fine).acks == s.acks.push(fine),
        s.step is Tell && s.acks.len() + 1 < s.peers.len() ==> s.after(fine).step
            == DrainStep::Tell(s.peers[s.acks.len() as int + 1]),
        s.step is Tell && s.acks.len() + 1 == s.peers.len() ==> s.after(fine).step == (if fine && (
        forall|i: int| 0 <= i < s.acks.len() ==> #[trigger] s.acks[i]) {
            DrainStep::Dequeue
        } else {
            DrainStep::Over
        }),
        !(s.step is Tell) ==> s.after(fine).acks == s.acks,
        s.step == DrainStep::Dequeue ==> s.after(fine).step == DrainStep::SpreadDone,
        s.step == DrainStep::SpreadDone ==> s.after(fine).step == DrainStep::Over,
        s.step == DrainStep::Over ==> s.after(fine).step == DrainStep::Over,
        s.after(fine).peers == s.peers,
{
    let acks = s.acks.push(fine);
    if s.step is Tell {
        if fine && (forall|i: int| 0 <= i < s.acks.len() ==> #[trigger] s.acks[i]) {
            assert forall|i: int| 0 <= i < acks.len() implies #[trigger] acks[i] by {
                if i < s.acks.len() {
                    assert(s.acks[i]);
                }
            }
        } else if !fine {
            assert(!acks[s.acks.len() as int]);
        } else {
            let i = choose|i: int| 0 <= i < s.acks.len() && !(#[trigger] s.acks[i]);
            assert(!acks[i]);
        }
    }
}

/// After a follower a catch-up asks the next one, and counts its own files anew behind the last;
/// nothing is left to fetch then. At most two hundred records are fetched at a time.
pub proof fn a_catchup_asks_every_follower(c: CatchupState)
    ensures
        c.next + 1 < c.targets.len() ==> c.after_pull().phase == CatchupPhase::Pull,
        c.next + 1 >= c.targets.len() ==> c.after_pull().phase == CatchupPhase::Recount,
        c.after_pull().next == c.next + 1,
        c.after_pull().to_fetch.len() == 0,
        c.after_pull() == (CatchupState {
            phase: c.after_pull().phase,
            next: c.after_pull().next,
            to_fetch: c.after_pull().to_fetch,
            ..c
        }),
        c.to_fetch.len() <= 200 ==> c.batch_len() == c.to_fetch.len(),
        c.to_fetch.len() > 200 ==> c.batch_len() == 200,
{
}

/// A leader catches up with its followers if it never did, or five minutes after it last did.
pub proof fn a_leader_catches_up_every_five_minutes(d: DisseminationState, then: u64, now_secs: u64)
    ensures
        d.caught_up_secs is None ==> d.is_due(now_secs),
        d.caught_up_secs == Some(then) ==> (d.is_due(now_secs) <==> now_secs - then >= 5 * 60),
{
}

/// An append begins with the file's record as it is. What is written is the chunk that the file
/// ends in, where that was taken up, and the new data behind it.
pub proof fn an_append_begins_with_the_tail(
    start: AppendStart,
    tail: Option<Result<Vec<u8>, String>>,
    new_data: Seq<u8>,
    chunk_size: nat,
    s: AppendState,
)
    requires
        begun(start, tail, new_data, chunk_size, s),
    ensures
        s.rec == start.metadata@,
        s.took_tail <==> tail is Some,
        tail is None ==> s.data == new_data && s.tail_len == 0,
        tail is Some && tail->0 is Ok ==> s.data == (tail->0->Ok_0)@ + new_data && s.tail_len == (
        tail->0->Ok_0)@.len(),
        s.written.len() == 0,
        s.chunk_size == chunk_size,
{
    if tail is None {
        assert(Seq::<u8>::empty() + new_data =~= new_data);
    }
}

/// A file counts as deleted just now for thirty seconds, and as buried for as long as its
/// tombstone is kept.
pub proof fn a_file_was_deleted_just_now_for_thirty_seconds(
    s: ServerState,
    file: FileId,
    now_ms: u64,
)
    ensures
        s.just_deleted(file, now_ms) <==> s.tombstones.dom().contains(file.id) && now_ms
            - s.tombstones[file.id] < 30 * 1000,
        s.buried(file) <==> s.tombstones.dom().contains(file.id),
        s.chunks.files.dom().contains(file.id) ==> s.held(file) == Some(
            s.chunks.files[file.id].0,
        ),
        !s.chunks.files.dom().contains(file.id) ==> s.held(file) is None,
        s.write_seqs.dom().contains(file.id) ==> s.write_seq_of(file) == s.write_seqs[file.id],
        !s.write_seqs.dom().contains(file.id) ==> s.write_seq_of(file) == 0,
{
}

/// Every request of a batch gets the one answer.
pub proof fn a_batch_is_answered_alike(n: nat, answer: Result<(), Seq<char>>, i: int)
    requires
        0 <= i < n,
    ensures
        same_answers(n, answer).len() == n,
        same_answers(n, answer)[i] == answer,
{
}

/// An acknowledgement carries nothing and is no refusal; a refusal carries its text and its code.
pub proof fn replies_are_told_apart(r: Response, text: Seq<char>, code: ErrorCode)
    ensures
        r.acknowledges() ==> r is Done && r->Done_data is None,
        r is Done && r->Done_data is None ==> r.acknowledges(),
        r.refuses(text, code) ==> !r.acknowledges() && r is Error && r->Error_message@ == text
            && r->Error_code == code,
        r is Error && r->Error_message@ == text && r->Error_code == code ==> r.refuses(text, code),
{
}

/// Filling a list up keeps all that it has, in its place, and adds of the other list just what
/// is of no chunk of four mebibytes that it has something of, and what has no place.
pub proof fn filling_up_adds_just_what_is_missing(held: Seq<Loc>, extra: Seq<Loc>, k: int)
    ensures
        filled_up(held, extra).len() >= held.len(),
        0 <= k < held.len() ==> filled_up(held, extra)[k] == held[k],
        held.len() <= k < filled_up(held, extra).len() ==> extra.contains(
            filled_up(held, extra)[k],
        ) && (filled_up(held, extra)[k].file_offset is Some ==> forall|m: int|
            0 <= m < k && (#[trigger] filled_up(held, extra)[m]).file_offset is Some ==> filled_up(
                held,
                extra,
            )[m].file_offset->0 / 4194304 != filled_up(held, extra)[k].file_offset->0 / 4194304),
{
    filled_up_members(held, extra);
    let f = filled_up(held, extra);
    if 0 <= k < held.len() {
        assert(f[k] == held[k]);
    }
    if held.len() <= k < f.len() && f[k].file_offset is Some {
        assert forall|m: int| 0 <= m < k && (#[trigger] f[m]).file_offset is Some implies
            f[m].file_offset->0 / 4194304 != f[k].file_offset->0 / 4194304 by {
            assert(f[m].slot() != f[k].slot());
        }
    }
}

/// Just the locations with a place are kept, in order.
pub proof fn just_placed_locations_are_kept(list: Seq<Loc>)
    ensures
        with_place(list) == list.filter(|l: Loc| l.file_offset is Some),
    decreases list.len(),
{
    reveal(Seq::filter);
    if list.len() > 0 {
        just_placed_locations_are_kept(list.drop_last());
    }
}

/// An acknowledgement tells a text just if it carries the text's bytes.
pub proof fn a_text_is_told_in_its_bytes(r: Response, text: Seq<char>)
    ensures
        tells(r, text) <==> r is Done && r->Done_data is Some && (r->Done_data->0)@
            == vstd::utf8::encode_utf8(text),
{
}

/// An append is complete once each of its chunks was written, and puts its record behind the
/// chunks of the file that stay.
pub proof fn an_append_is_complete_with_its_last_chunk(s: AppendState, now_secs: u64)
    ensures
        s.complete() <==> s.written.len() == s.chunks.len(),
        s.finished(now_secs) == crate::write_path::appended(
            s.rec,
            s.took_tail,
            s.tail_len,
            s.written,
            now_secs,
        ),
        s.place() == s.rec.size - s.tail_len + crate::write_path::total_size(s.written),
{
}

} // verus!
