//! Rewriting a chunk on disk: the order of the steps, and what a crash between them leaves.
use crate::digest::content_id_at;
use crate::patch::{is_rewrite, restored, Rewrite};
use crate::patch_bytes::{
    byte_after, covered_byte, covers, grown, growing_first_changes_nothing, growing_keeps_len,
    needed_len, needed_len_bounds, needed_len_prefix, patched, short_patches, uncovered_byte,
    undo_list, undo_restores_any_torn_write,
};
use crate::protocol::fails_with;
use crate::text::join;
use crate::types::{ChunkId, ErrorCode, FileId};
use vstd::prelude::*;

verus! {

/// The steps of rewriting a chunk in place. The way back is stored before a byte is touched, and
/// forgotten only once the chunk has its new name.
#[derive(Clone, Copy, Debug, PartialEq, Eq, Structural)]
pub enum RewriteStep {
    /// Store the journal entry.
    StoreJournal,
    /// Open the chunk for writing.
    Open,
    /// Give it the length that it will have, with zeros behind its end. A patch that writes
    /// nothing may start there, so the writes alone need not make it long enough.
    Grow,
    /// Go to the place of the patch with this number.
    Seek(usize),
    /// Write it.
    Write(usize),
    /// Wait until the bytes are on disk.
    Sync,
    /// Make the directory of the new name.
    MakeDirectory,
    /// Give the chunk its new name.
    Rename,
    /// Remove the record of where the old chunk is, forget cached bytes of both, and list the new
    /// one in place of the old one.
    ForgetOld,
    /// Forget cached bytes of a chunk that keeps its name.
    ForgetCached,
    /// Remove the journal entry.
    ClearJournal,
    /// Store where the new chunk is.
    StoreLocation,
    Done,
}

/// The step with which a rewrite begins: one that changes neither the bytes nor the identity
/// touches nothing on disk.
pub open spec fn first_step(changed: bool) -> RewriteStep {
    if changed {
        RewriteStep::StoreJournal
    } else {
        RewriteStep::StoreLocation
    }
}

pub fn rewrite_begins(changed: bool) -> (r: RewriteStep)
    ensures
        r == first_step(changed),
{
    if changed {
        RewriteStep::StoreJournal
    } else {
        RewriteStep::StoreLocation
    }
}

/// The step that follows one that succeeded, for a rewrite with so many patches. A chunk whose
/// identity stays keeps its name.
pub open spec fn next_step(done: RewriteStep, patches: nat, renames: bool) -> RewriteStep {
    match done {
        RewriteStep::StoreJournal => RewriteStep::Open,
        RewriteStep::Open => RewriteStep::Grow,
        RewriteStep::Grow => if patches > 0 {
            RewriteStep::Seek(0)
        } else {
            RewriteStep::Sync
        },
        RewriteStep::Seek(k) => RewriteStep::Write(k),
        RewriteStep::Write(k) => if k + 1 < patches {
            RewriteStep::Seek((k + 1) as usize)
        } else {
            RewriteStep::Sync
        },
        RewriteStep::Sync => if renames {
            RewriteStep::MakeDirectory
        } else {
            RewriteStep::ForgetCached
        },
        RewriteStep::MakeDirectory => RewriteStep::Rename,
        RewriteStep::Rename => RewriteStep::ForgetOld,
        RewriteStep::ForgetOld | RewriteStep::ForgetCached => RewriteStep::ClearJournal,
        RewriteStep::ClearJournal => RewriteStep::StoreLocation,
        RewriteStep::StoreLocation => RewriteStep::Done,
        RewriteStep::Done => RewriteStep::Done,
    }
}

/// What is said of a step that failed; nothing of one whose failure does not matter, for then the
/// bytes are where they belong. A journal entry that stays does no harm to a chunk that has got a
/// new name, but would take back what was written to one that keeps it.
pub open spec fn step_complaint(step: RewriteStep, renames: bool) -> Option<Seq<char>> {
    match step {
        RewriteStep::StoreJournal => Some("Failed to write patch journal: "@),
        RewriteStep::Open => Some("Failed to open chunk for patch: "@),
        RewriteStep::Grow => Some("Failed to grow chunk: "@),
        RewriteStep::Seek(_) => Some("Failed to seek chunk: "@),
        RewriteStep::Write(_) => Some("Failed to write patch: "@),
        RewriteStep::Sync => Some("Failed to sync patched chunk: "@),
        RewriteStep::MakeDirectory => Some("Failed to create chunk directory: "@),
        RewriteStep::Rename => Some("Failed to rename patched chunk: "@),
        RewriteStep::ClearJournal => if renames {
            None
        } else {
            Some("Failed to clear patch journal: "@)
        },
        _ => None,
    }
}

/// Decides what follows a step. Until the bytes are where they belong a failure ends the rewrite,
/// and leaves the journal entry for the recovery at the next start.
pub fn after_rewrite_step(
    done: RewriteStep,
    patches: usize,
    renames: bool,
    failure: Option<String>,
) -> (r: Result<RewriteStep, (String, ErrorCode)>)
    ensures
        failure is Some && step_complaint(done, renames) is Some ==> r is Err && fails_with(
            r->Err_0,
            step_complaint(done, renames)->0 + (failure->0)@,
            ErrorCode::InternalError,
        ),
        failure is None || step_complaint(done, renames) is None ==> r == Ok::<
            RewriteStep,
            (String, ErrorCode),
        >(next_step(done, patches as nat, renames)),
{
    match failure {
        Some(why) => {
            let what: Option<&str> = match done {
                RewriteStep::StoreJournal => Some("Failed to write patch journal: "),
                RewriteStep::Open => Some("Failed to open chunk for patch: "),
                RewriteStep::Grow => Some("Failed to grow chunk: "),
                RewriteStep::Seek(_) => Some("Failed to seek chunk: "),
                RewriteStep::Write(_) => Some("Failed to write patch: "),
                RewriteStep::Sync => Some("Failed to sync patched chunk: "),
                RewriteStep::MakeDirectory => Some("Failed to create chunk directory: "),
                RewriteStep::Rename => Some("Failed to rename patched chunk: "),
                RewriteStep::ClearJournal => if renames {
                    None
                } else {
                    Some("Failed to clear patch journal: ")
                },
                _ => None,
            };
            match what {
                Some(w) => {
                    return Err((join(w, why.as_str()), ErrorCode::InternalError));
                },
                None => {},
            }
        },
        None => {},
    }
    Ok(
        match done {
            RewriteStep::StoreJournal => RewriteStep::Open,
            RewriteStep::Open => RewriteStep::Grow,
            RewriteStep::Grow => if patches > 0 {
                RewriteStep::Seek(0)
            } else {
                RewriteStep::Sync
            },
            RewriteStep::Seek(k) => RewriteStep::Write(k),
            RewriteStep::Write(k) => if k < patches && k + 1 < patches {
                RewriteStep::Seek(k + 1)
            } else {
                RewriteStep::Sync
            },
            RewriteStep::Sync => if renames {
                RewriteStep::MakeDirectory
            } else {
                RewriteStep::ForgetCached
            },
            RewriteStep::MakeDirectory => RewriteStep::Rename,
            RewriteStep::Rename => RewriteStep::ForgetOld,
            RewriteStep::ForgetOld | RewriteStep::ForgetCached => RewriteStep::ClearJournal,
            RewriteStep::ClearJournal => RewriteStep::StoreLocation,
            RewriteStep::StoreLocation => RewriteStep::Done,
            RewriteStep::Done => RewriteStep::Done,
        },
    )
}

// ---------------------------------------------------------------------------
// The disk.
// ---------------------------------------------------------------------------

/// The way back from a rewrite: what the patches overwrite, and how long the chunk was.
pub ghost struct WayBack {
    pub undo: Seq<(usize, Seq<u8>)>,
    pub old_len: nat,
}

pub open spec fn way_back(base: Seq<u8>, patches: Seq<(usize, Seq<u8>)>) -> WayBack {
    WayBack { undo: undo_list(base, patches), old_len: base.len() }
}

/// What the disk holds of a chunk that is being rewritten: the way back, if it is stored, and the
/// files under the old and under the new name.
#[verifier::ext_equal]
pub ghost struct ChunkDisk {
    pub journal: Option<WayBack>,
    pub old_file: Option<Seq<u8>>,
    pub new_file: Option<Seq<u8>>,
}

/// A file after some bytes were written at a place. Writing nothing changes nothing.
pub open spec fn written(file: Seq<u8>, p: (usize, Seq<u8>)) -> Seq<u8> {
    if p.1.len() == 0 {
        file
    } else {
        patched(file, seq![p])
    }
}

/// The disk after a step of the rewrite of `base` with the patches.
pub open spec fn effect(
    d: ChunkDisk,
    step: RewriteStep,
    base: Seq<u8>,
    patches: Seq<(usize, Seq<u8>)>,
) -> ChunkDisk {
    match step {
        RewriteStep::StoreJournal => ChunkDisk { journal: Some(way_back(base, patches)), ..d },
        RewriteStep::Grow => ChunkDisk { old_file: Some(grown(d.old_file->0, patches)), ..d },
        RewriteStep::Write(k) => ChunkDisk {
            old_file: Some(written(d.old_file->0, patches[k as int])),
            ..d
        },
        RewriteStep::Rename => ChunkDisk { old_file: None, new_file: d.old_file, ..d },
        RewriteStep::ClearJournal => ChunkDisk { journal: None, ..d },
        _ => d,
    }
}

/// The patched bytes are where they belong: under the new name, with nothing left under the old
/// one, or under the name that the chunk keeps.
pub open spec fn settled(
    d: ChunkDisk,
    base: Seq<u8>,
    patches: Seq<(usize, Seq<u8>)>,
    renames: bool,
) -> bool {
    if renames {
        d.old_file is None && d.new_file == Some(patched(base, patches))
    } else {
        d.old_file == Some(patched(base, patches))
    }
}

/// What the disk holds when a step is about to be taken.
pub open spec fn ready_for(
    d: ChunkDisk,
    step: RewriteStep,
    base: Seq<u8>,
    patches: Seq<(usize, Seq<u8>)>,
    renames: bool,
) -> bool {
    let back = Some(way_back(base, patches));
    match step {
        RewriteStep::StoreJournal => d.journal is None && d.old_file == Some(base),
        RewriteStep::Open | RewriteStep::Grow => d.journal == back && d.old_file == Some(base),
        RewriteStep::Seek(k) | RewriteStep::Write(k) => k < patches.len() && d.journal == back
            && d.old_file == Some(patched(grown(base, patches), patches.take(k as int))),
        RewriteStep::Sync => d.journal == back && d.old_file == Some(patched(base, patches)),
        RewriteStep::MakeDirectory | RewriteStep::Rename => renames && d.journal == back
            && d.old_file == Some(patched(base, patches)),
        RewriteStep::ForgetOld => renames && d.journal == back && settled(
            d,
            base,
            patches,
            renames,
        ),
        RewriteStep::ForgetCached => !renames && d.journal == back && settled(
            d,
            base,
            patches,
            renames,
        ),
        RewriteStep::ClearJournal => d.journal == back && settled(d, base, patches, renames),
        RewriteStep::StoreLocation | RewriteStep::Done => d.journal is None && settled(
            d,
            base,
            patches,
            renames,
        ),
    }
}

proof fn one_more_patch(base: Seq<u8>, patches: Seq<(usize, Seq<u8>)>, k: int)
    requires
        0 <= k < patches.len(),
    ensures
        written(patched(grown(base, patches), patches.take(k)), patches[k]) == patched(
            grown(base, patches),
            patches.take(k + 1),
        ),
{
    let g = grown(base, patches);
    let sofar = patches.take(k);
    let next = patches.take(k + 1);
    let p = patches[k];
    let one = seq![p];
    let mid = patched(g, sofar);
    let none = Seq::<(usize, Seq<u8>)>::empty();
    needed_len_prefix(base.len(), patches, k);
    needed_len_prefix(base.len(), patches, k + 1);
    needed_len_bounds(base.len(), patches);
    short_patches(g.len(), sofar, base.len());
    short_patches(g.len(), next, base.len());
    assert(next.drop_last() =~= sofar);
    assert(next.last() == p);
    assert(one.drop_last() =~= none);
    assert(one.last() == p);
    assert(needed_len(mid.len(), none) == mid.len());
    assert(needed_len(mid.len(), one) == g.len());
    let whole = patched(mid, one);
    let after = patched(g, next);
    assert(whole.len() == g.len() && after.len() == g.len() && mid.len() == g.len());
    assert forall|i: int| 0 <= i < g.len() implies #[trigger] whole[i] == after[i] by {
        assert(mid[i] == byte_after(g, sofar, i));
        if !covers(p, i) {
            assert(byte_after(mid, one, i) == byte_after(mid, none, i));
        }
    }
    assert(whole =~= after);
    if p.1.len() == 0 {
        assert forall|i: int| 0 <= i < g.len() implies #[trigger] mid[i] == after[i] by {
            assert(!covers(p, i));
        }
        assert(mid =~= after);
    }
}

/// Each step of a rewrite leaves the disk ready for the next one.
pub proof fn each_step_makes_ready_for_the_next(
    d: ChunkDisk,
    step: RewriteStep,
    base: Seq<u8>,
    patches: Seq<(usize, Seq<u8>)>,
    renames: bool,
)
    requires
        patches.len() <= usize::MAX,
        ready_for(d, step, base, patches, renames),
    ensures
        ready_for(
            effect(d, step, base, patches),
            next_step(step, patches.len(), renames),
            base,
            patches,
            renames,
        ),
{
    let none = Seq::<(usize, Seq<u8>)>::empty();
    let g = grown(base, patches);
    match step {
        RewriteStep::Grow => {
            assert(needed_len(g.len(), none) == g.len());
            assert(patched(g, none) =~= g);
            assert(patches.take(0) =~= none);
            if patches.len() == 0 {
                assert(patches =~= none);
                growing_first_changes_nothing(base, patches);
            }
        },
        RewriteStep::Write(k) => {
            one_more_patch(base, patches, k as int);
            if k + 1 == patches.len() {
                assert(patches.take(k + 1) =~= patches);
                growing_first_changes_nothing(base, patches);
            }
        },
        _ => {},
    }
}

/// How many steps are left at most.
pub open spec fn steps_left(step: RewriteStep, patches: nat) -> nat {
    match step {
        RewriteStep::StoreJournal => 11 + 2 * patches,
        RewriteStep::Open => 10 + 2 * patches,
        RewriteStep::Grow => 9 + 2 * patches,
        RewriteStep::Seek(k) => 8 + 2 * (if k < patches {
            (patches - 1 - k) as nat
        } else {
            0
        }),
        RewriteStep::Write(k) => 7 + 2 * (if k < patches {
            (patches - 1 - k) as nat
        } else {
            0
        }),
        RewriteStep::Sync => 6,
        RewriteStep::MakeDirectory => 5,
        RewriteStep::Rename => 4,
        RewriteStep::ForgetOld | RewriteStep::ForgetCached => 3,
        RewriteStep::ClearJournal => 2,
        RewriteStep::StoreLocation => 1,
        RewriteStep::Done => 0,
    }
}

/// The disk once a rewrite has gone on from a step to its end, all of its steps succeeding.
pub open spec fn at_the_end(
    d: ChunkDisk,
    step: RewriteStep,
    base: Seq<u8>,
    patches: Seq<(usize, Seq<u8>)>,
    renames: bool,
) -> ChunkDisk
    decreases steps_left(step, patches.len()),
{
    if step == RewriteStep::Done || patches.len() > usize::MAX {
        d
    } else {
        at_the_end(
            effect(d, step, base, patches),
            next_step(step, patches.len(), renames),
            base,
            patches,
            renames,
        )
    }
}

proof fn the_end_is_settled(
    d: ChunkDisk,
    step: RewriteStep,
    base: Seq<u8>,
    patches: Seq<(usize, Seq<u8>)>,
    renames: bool,
)
    requires
        patches.len() <= usize::MAX,
        ready_for(d, step, base, patches, renames),
    ensures
        ready_for(
            at_the_end(d, step, base, patches, renames),
            RewriteStep::Done,
            base,
            patches,
            renames,
        ),
    decreases steps_left(step, patches.len()),
{
    if step != RewriteStep::Done {
        each_step_makes_ready_for_the_next(d, step, base, patches, renames);
        the_end_is_settled(
            effect(d, step, base, patches),
            next_step(step, patches.len(), renames),
            base,
            patches,
            renames,
        );
    }
}

/// The disk before a rewrite: the chunk is there, and no way back is stored.
pub open spec fn untouched(base: Seq<u8>) -> ChunkDisk {
    ChunkDisk { journal: None, old_file: Some(base), new_file: None }
}

/// What a rewrite that ran to its end stores under the identity that it gives the chunk is just
/// the content that the identity was computed from. The way back is forgotten, and a chunk that
/// got a new name is not found under the old one any more.
pub proof fn a_rewrite_stores_its_content(
    r: Rewrite,
    base: Seq<u8>,
    patches: Seq<(usize, Seq<u8>)>,
    old_chunk_id: ChunkId,
    offset: u64,
    file_id: FileId,
)
    requires
        is_rewrite(r, base, patches, old_chunk_id, offset, file_id),
        patches.len() <= usize::MAX,
    ensures
        ({
            let renames = r.new_chunk_id != old_chunk_id;
            let end = at_the_end(
                untouched(base),
                first_step(r.journal is Some),
                base,
                patches,
                renames,
            );
            &&& r.new_chunk_id == content_id_at(r.content@, offset, file_id)
            &&& end.journal is None
            &&& if renames {
                end.new_file == Some(r.content@) && end.old_file is None
            } else {
                end.old_file == Some(r.content@)
            }
        }),
{
    let renames = r.new_chunk_id != old_chunk_id;
    the_end_is_settled(
        untouched(base),
        first_step(r.journal is Some),
        base,
        patches,
        renames,
    );
}

/// The file under the old name while a patch is being written: some of the bytes that the patches
/// write may hold anything, every other byte is what it was.
pub open spec fn torn(file: Seq<u8>, base: Seq<u8>, patches: Seq<(usize, Seq<u8>)>) -> bool {
    &&& base.len() <= file.len() <= needed_len(base.len(), patches)
    &&& forall|i: int|
        0 <= i < file.len() && (forall|k: int|
            0 <= k < patches.len() ==> !covers(#[trigger] patches[k], i)) ==> #[trigger] file[i]
            == grown(base, patches)[i]
}

proof fn part_of_the_patches_is_torn(base: Seq<u8>, patches: Seq<(usize, Seq<u8>)>, k: int)
    requires
        0 <= k <= patches.len(),
    ensures
        torn(patched(grown(base, patches), patches.take(k)), base, patches),
{
    let g = grown(base, patches);
    let part = patches.take(k);
    let file = patched(g, part);
    needed_len_bounds(base.len(), patches);
    needed_len_prefix(base.len(), patches, k);
    short_patches(g.len(), part, base.len());
    assert forall|i: int|
        0 <= i < file.len() && (forall|j: int|
            0 <= j < patches.len() ==> !covers(#[trigger] patches[j], i)) implies #[trigger] file[i]
        == grown(base, patches)[i] by {
        assert forall|j: int| 0 <= j < part.len() implies !covers(#[trigger] part[j], i) by {
            assert(part[j] == patches[j]);
        }
        uncovered_byte(g, part, i);
    }
}

/// A pending patch reads the same all the while its chunk is being rewritten, and after a rewrite
/// that failed halfway: writing the patches over what the rewrite has left gives what writing
/// them over the chunk as it was gives.
pub proof fn a_torn_chunk_composes_as_before(
    file: Seq<u8>,
    base: Seq<u8>,
    patches: Seq<(usize, Seq<u8>)>,
)
    requires
        torn(file, base, patches),
    ensures
        patched(file, patches) == patched(base, patches),
{
    growing_keeps_len(base.len(), file.len(), patches);
    let (now, then) = (patched(file, patches), patched(base, patches));
    assert forall|i: int| 0 <= i < then.len() implies #[trigger] now[i] == then[i] by {
        if exists|k: int| 0 <= k < patches.len() && covers(#[trigger] patches[k], i) {
            covered_byte(file, base, patches, i);
        } else {
            uncovered_byte(file, patches, i);
            uncovered_byte(base, patches, i);
            if i < file.len() {
                assert(file[i] == grown(base, patches)[i]);
            }
        }
    }
    assert(now =~= then);
}

/// The disk after the recovery at the next start: a chunk that still has its old name is written
/// back, last patch first, and cut to its old length; either way the journal entry is removed.
pub open spec fn recovered(d: ChunkDisk) -> ChunkDisk {
    match d.journal {
        Some(back) => ChunkDisk {
            journal: None,
            old_file: match d.old_file {
                Some(file) => Some(restored(file, back.undo.reverse(), back.old_len)),
                None => None,
            },
            ..d
        },
        None => d,
    }
}

/// A rewrite may be cut short before or after any step, while the chunk grows or a patch is being
/// written, or while an earlier recovery was writing the old bytes back.
pub open spec fn cut_short(
    d: ChunkDisk,
    step: RewriteStep,
    base: Seq<u8>,
    patches: Seq<(usize, Seq<u8>)>,
    renames: bool,
) -> bool {
    ready_for(d, step, base, patches, renames) || (d.journal == Some(way_back(base, patches))
        && d.old_file is Some && torn(d.old_file->0, base, patches))
}

proof fn untouched_is_torn(base: Seq<u8>, patches: Seq<(usize, Seq<u8>)>)
    ensures
        torn(base, base, patches),
{
    needed_len_bounds(base.len(), patches);
}

proof fn finished_is_torn(base: Seq<u8>, patches: Seq<(usize, Seq<u8>)>)
    ensures
        torn(patched(base, patches), base, patches),
{
    part_of_the_patches_is_torn(base, patches, patches.len() as int);
    assert(patches.take(patches.len() as int) =~= patches);
    growing_first_changes_nothing(base, patches);
}

/// Whenever a rewrite is cut short, after a recovery the chunk is there, with exactly the bytes
/// that it had or exactly those that it was to have: one that gets a new name has the old bytes
/// under its old name, or the new ones under its new name.
pub proof fn a_crash_leaves_old_or_new(
    d: ChunkDisk,
    step: RewriteStep,
    base: Seq<u8>,
    patches: Seq<(usize, Seq<u8>)>,
    renames: bool,
)
    requires
        cut_short(d, step, base, patches, renames),
    ensures
        recovered(d).journal is None,
        d.journal is Some && d.old_file is Some ==> recovered(d).old_file == Some(base),
        match recovered(d).old_file {
            Some(file) => file == base || (!renames && file == patched(base, patches)),
            None => renames && recovered(d).new_file == Some(patched(base, patches)),
        },
{
    let g = grown(base, patches);
    needed_len_bounds(base.len(), patches);
    match d.old_file {
        Some(file) => {
            if d.journal is Some {
                if ready_for(d, step, base, patches, renames) {
                    match step {
                        RewriteStep::Seek(k) | RewriteStep::Write(k) => {
                            part_of_the_patches_is_torn(base, patches, k as int);
                        },
                        RewriteStep::Open | RewriteStep::Grow => {
                            untouched_is_torn(base, patches);
                        },
                        _ => {
                            finished_is_torn(base, patches);
                        },
                    }
                }
                assert(torn(file, base, patches));
                undo_restores_any_torn_write(base, patches, file);
                assert(patched(file, d.journal->0.undo.reverse()) == g);
                assert(g.take(base.len() as int) =~= base);
            }
        },
        None => {},
    }
}

/// Recovering twice is the same as recovering once: where the journal entry outlived a recovery
/// that restored the old chunk, the next one leaves it as it is.
pub proof fn recovering_again_changes_nothing(
    d: ChunkDisk,
    step: RewriteStep,
    base: Seq<u8>,
    patches: Seq<(usize, Seq<u8>)>,
    renames: bool,
)
    requires
        cut_short(d, step, base, patches, renames),
    ensures
        recovered(ChunkDisk { journal: d.journal, ..recovered(d) }) == recovered(d),
{
    a_crash_leaves_old_or_new(d, step, base, patches, renames);
    if d.journal is Some && d.old_file is Some {
        let again = ChunkDisk { journal: d.journal, ..recovered(d) };
        untouched_is_torn(base, patches);
        assert(d.journal == Some(way_back(base, patches)));
        a_crash_leaves_old_or_new(again, RewriteStep::Open, base, patches, renames);
    }
}

} // verus!
