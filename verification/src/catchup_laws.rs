//! What a catch-up is for: afterwards nobody is behind on a file that is to stay.
use vstd::prelude::*;

use crate::catchup::{
    behind_there, counted_anew, deleted_files, fetched, inventory, missing_here, missing_there,
    owed_by, owed_to, pulled, pushed, CatchupPhase, CatchupState,
};
use crate::protocol::DeleteQueueEntry;
use crate::types::FileId;

verus! {

/// A file is fetched from a follower just where the follower lists a version of it that is newer
/// than the one here, or it is unknown here, and it does not wait to be deleted.
pub proof fn a_pull_fetches_just_what_is_newer_there(
    theirs: Seq<(FileId, u64)>,
    mine: Map<u128, u64>,
    deleted: Set<u128>,
    file: FileId,
)
    ensures
        missing_here(theirs, mine, deleted).contains(file) <==> exists|i: int|
            0 <= i < theirs.len() && (#[trigger] theirs[i]).0 == file && !deleted.contains(file.id)
                && (!mine.dom().contains(file.id) || mine[file.id] < theirs[i].1),
    decreases theirs.len(),
{
    if theirs.len() > 0 {
        let init = theirs.drop_last();
        a_pull_fetches_just_what_is_newer_there(init, mine, deleted, file);
        let m0 = missing_here(init, mine, deleted);
        let m = missing_here(theirs, mine, deleted);
        if m.contains(file) {
            let k = choose|k: int| 0 <= k < m.len() && m[k] == file;
            if k < m0.len() {
                assert(m0[k] == file);
                let i = choose|i: int|
                    0 <= i < init.len() && (#[trigger] init[i]).0 == file && !deleted.contains(
                        file.id,
                    ) && (!mine.dom().contains(file.id) || mine[file.id] < init[i].1);
                assert(theirs[i] == init[i]);
            } else {
                assert(theirs[theirs.len() - 1].0 == file);
            }
        }
        if exists|i: int|
            0 <= i < theirs.len() && (#[trigger] theirs[i]).0 == file && !deleted.contains(file.id)
                && (!mine.dom().contains(file.id) || mine[file.id] < theirs[i].1) {
            let i = choose|i: int|
                0 <= i < theirs.len() && (#[trigger] theirs[i]).0 == file && !deleted.contains(
                    file.id,
                ) && (!mine.dom().contains(file.id) || mine[file.id] < theirs[i].1);
            if i < init.len() {
                assert(init[i].0 == file);
                let k = choose|k: int| 0 <= k < m0.len() && m0[k] == file;
                assert(m[k] == file);
            } else {
                assert(m[m.len() - 1] == file);
            }
        }
    }
}

/// After a pull the leader is behind the follower on no file that is to stay. `after` is what the
/// leader has then: nothing older than before, and of each file that was to be fetched no older
/// version than the follower listed.
pub proof fn after_a_pull_the_leader_is_not_behind(
    theirs: Seq<(FileId, u64)>,
    mine: Map<u128, u64>,
    deleted: Set<u128>,
    after: Map<u128, u64>,
)
    requires
        forall|id: u128|
            mine.dom().contains(id) ==> #[trigger] after.dom().contains(id) && mine[id]
                <= after[id],
        forall|i: int|
            0 <= i < theirs.len() && missing_here(theirs, mine, deleted).contains(
                (#[trigger] theirs[i]).0,
            ) ==> after.dom().contains(theirs[i].0.id) && theirs[i].1 <= after[theirs[i].0.id],
    ensures
        forall|i: int|
            0 <= i < theirs.len() && !deleted.contains((#[trigger] theirs[i]).0.id)
                ==> after.dom().contains(theirs[i].0.id) && theirs[i].1 <= after[theirs[i].0.id],
{
    assert forall|i: int|
        0 <= i < theirs.len() && !deleted.contains((#[trigger] theirs[i]).0.id) implies
        after.dom().contains(theirs[i].0.id) && theirs[i].1 <= after[theirs[i].0.id] by {
        a_pull_fetches_just_what_is_newer_there(theirs, mine, deleted, theirs[i].0);
        if mine.dom().contains(theirs[i].0.id) {
            assert(after.dom().contains(theirs[i].0.id));
        }
    }
}

/// What is fetched comes in the order of the follower's inventory, as often as it is listed.
pub proof fn a_pull_goes_by_the_inventory(
    theirs: Seq<(FileId, u64)>,
    mine: Map<u128, u64>,
    deleted: Set<u128>,
)
    ensures
        missing_here(theirs, mine, deleted) == theirs.filter(
            |e: (FileId, u64)|
                !deleted.contains(e.0.id) && (!mine.dom().contains(e.0.id) || mine[e.0.id] < e.1),
        ).map_values(|e: (FileId, u64)| e.0),
    decreases theirs.len(),
{
    reveal(Seq::filter);
    let newer = |e: (FileId, u64)|
        !deleted.contains(e.0.id) && (!mine.dom().contains(e.0.id) || mine[e.0.id] < e.1);
    let file = |e: (FileId, u64)| e.0;
    if theirs.len() > 0 {
        a_pull_goes_by_the_inventory(theirs.drop_last(), mine, deleted);
    }
    assert(theirs.filter(newer).map_values(file) =~= missing_here(theirs, mine, deleted));
}

/// A file is queued for a follower just where the follower does not list it and it does not wait
/// to be deleted; the queue goes by the order of the leader's inventory.
pub proof fn a_push_sends_just_what_is_unknown_there(
    ours: Seq<(FileId, u64)>,
    theirs: Map<u128, u64>,
    deleted: Set<u128>,
)
    ensures
        missing_there(ours, theirs, deleted) == ours.filter(
            |e: (FileId, u64)| !theirs.dom().contains(e.0.id) && !deleted.contains(e.0.id),
        ).map_values(|e: (FileId, u64)| e.0),
    decreases ours.len(),
{
    reveal(Seq::filter);
    let unknown = |e: (FileId, u64)| !theirs.dom().contains(e.0.id) && !deleted.contains(e.0.id);
    let file = |e: (FileId, u64)| e.0;
    if ours.len() > 0 {
        a_push_sends_just_what_is_unknown_there(ours.drop_last(), theirs, deleted);
    }
    assert(ours.filter(unknown).map_values(file) =~= missing_there(ours, theirs, deleted));
}

/// A sweep sends just what a follower lacks or has in an older version, by the order of the
/// leader's inventory.
pub proof fn a_sweep_sends_what_is_older_there(ours: Seq<(FileId, u64)>, theirs: Map<u128, u64>)
    ensures
        behind_there(ours, theirs) == ours.filter(
            |e: (FileId, u64)| !theirs.dom().contains(e.0.id) || theirs[e.0.id] < e.1,
        ).map_values(|e: (FileId, u64)| e.0),
    decreases ours.len(),
{
    reveal(Seq::filter);
    let older = |e: (FileId, u64)| !theirs.dom().contains(e.0.id) || theirs[e.0.id] < e.1;
    let file = |e: (FileId, u64)| e.0;
    if ours.len() > 0 {
        a_sweep_sends_what_is_older_there(ours.drop_last(), theirs);
    }
    assert(ours.filter(older).map_values(file) =~= behind_there(ours, theirs));
}

/// An inventory knows just the files it lists, each in the version listed last.
pub proof fn an_inventory_knows_the_last_listing(list: Seq<(FileId, u64)>, i: int, id: u128)
    ensures
        inventory(list).dom().contains(id) <==> exists|k: int|
            0 <= k < list.len() && (#[trigger] list[k]).0.id == id,
        0 <= i < list.len() && (forall|k: int|
            i < k < list.len() ==> (#[trigger] list[k]).0.id != list[i].0.id) ==> inventory(
            list,
        )[list[i].0.id] == list[i].1,
    decreases list.len(),
{
    if list.len() > 0 {
        let init = list.drop_last();
        let last = list.len() - 1;
        an_inventory_knows_the_last_listing(init, i, id);
        if inventory(init).dom().contains(id) {
            let k = choose|k: int| 0 <= k < init.len() && (#[trigger] init[k]).0.id == id;
            assert(list[k].0.id == id);
        }
        if list[last].0.id != id && exists|k: int|
            0 <= k < list.len() && (#[trigger] list[k]).0.id == id {
            let k = choose|k: int| 0 <= k < list.len() && (#[trigger] list[k]).0.id == id;
            assert(init[k].0.id == id);
        }
        if 0 <= i < init.len() && (forall|k: int|
            i < k < list.len() ==> (#[trigger] list[k]).0.id != list[i].0.id) {
            assert(init[i] == list[i]);
            assert(list[last].0.id != list[i].0.id);
            assert forall|k: int| i < k < init.len() implies (#[trigger] init[k]).0.id
                != init[i].0.id by {
                assert(list[k].0.id != list[i].0.id);
            }
        }
    }
}

/// A file waits to be deleted just where the delete queue has an entry of it.
pub proof fn just_the_queued_files_wait_to_be_deleted(entries: Seq<DeleteQueueEntry>, id: u128)
    ensures
        deleted_files(entries).contains(id) <==> exists|k: int|
            0 <= k < entries.len() && (#[trigger] entries[k]).file_id.id == id,
    decreases entries.len(),
{
    if entries.len() > 0 {
        let init = entries.drop_last();
        just_the_queued_files_wait_to_be_deleted(init, id);
        if deleted_files(init).contains(id) {
            let k = choose|k: int| 0 <= k < init.len() && (#[trigger] init[k]).file_id.id == id;
            assert(entries[k].file_id.id == id);
        }
        if entries.last().file_id.id == id {
            assert(entries[entries.len() - 1].file_id.id == id);
        } else if exists|k: int|
            0 <= k < entries.len() && (#[trigger] entries[k]).file_id.id == id {
            let k = choose|k: int|
                0 <= k < entries.len() && (#[trigger] entries[k]).file_id.id == id;
            assert(init[k].file_id.id == id);
        }
    }
}

/// A follower's inventory is followed by fetching what is missing here, if anything is; without
/// an inventory nothing is. Its turn is over otherwise, and behind the last batch of at most two
/// hundred: every file that was missing is fetched once.
pub proof fn a_turn_fetches_all_that_is_missing(
    c: CatchupState,
    theirs: Seq<(FileId, u64)>,
    file: FileId,
)
    ensures
        owed_by(c, None).len() == 0,
        owed_by(c, Some(theirs)).contains(file) <==> exists|i: int|
            0 <= i < theirs.len() && (#[trigger] theirs[i]).0 == file && !c.deleted.contains(
                file.id,
            ) && (!c.mine.dom().contains(file.id) || c.mine[file.id] < theirs[i].1),
        owed_by(c, Some(theirs)).len() > 0 ==> pulled(c, owed_by(c, Some(theirs))).phase
            == CatchupPhase::Fetch && pulled(c, owed_by(c, Some(theirs))).to_fetch == owed_by(
            c,
            Some(theirs),
        ) && pulled(c, owed_by(c, Some(theirs))).next == c.next,
        owed_by(c, Some(theirs)).len() == 0 ==> pulled(c, owed_by(c, Some(theirs))).next == c.next
            + 1 && pulled(c, owed_by(c, Some(theirs))).to_fetch.len() == 0,
        c.to_fetch.len() > 200 ==> fetched(c).to_fetch == c.to_fetch.skip(200) && fetched(c).next
            == c.next && fetched(c).phase == c.phase,
        c.to_fetch.len() <= 200 ==> fetched(c).to_fetch.len() == 0 && fetched(c).next == c.next + 1
            && fetched(c).phase != CatchupPhase::Fetch,
        fetched(c).mine == c.mine && fetched(c).deleted == c.deleted && fetched(c).targets
            == c.targets,
{
    a_pull_fetches_just_what_is_newer_there(theirs, c.mine, c.deleted, file);
}

/// Once the node's own files were counted anew, every follower is sent in turn what it does not
/// list and is to stay, from the first to the last. Without a count nothing is sent. A follower
/// without an inventory is sent all.
pub proof fn every_follower_is_sent_what_it_lacks(
    c: CatchupState,
    own: Seq<(FileId, u64)>,
    theirs: Seq<(FileId, u64)>,
    file: FileId,
)
    ensures
        counted_anew(c, Some(own)).ours == own,
        counted_anew(c, Some(own)).next == 0,
        c.targets.len() > 0 ==> counted_anew(c, Some(own)).phase == CatchupPhase::Push,
        c.targets.len() == 0 ==> counted_anew(c, Some(own)).phase == CatchupPhase::Done,
        counted_anew(c, None).phase == CatchupPhase::Done,
        pushed(c).next == c.next + 1,
        pushed(c).phase == CatchupPhase::Push <==> c.next + 1 < c.targets.len(),
        pushed(c).phase == CatchupPhase::Done <==> c.next + 1 >= c.targets.len(),
        owed_to(c, Some(theirs)).contains(file) <==> !c.deleted.contains(file.id) && (exists|i: int|
            0 <= i < c.ours.len() && (#[trigger] c.ours[i]).0 == file) && forall|k: int|
            0 <= k < theirs.len() ==> (#[trigger] theirs[k]).0.id != file.id,
        owed_to(c, None).contains(file) <==> !c.deleted.contains(file.id) && exists|i: int|
            0 <= i < c.ours.len() && (#[trigger] c.ours[i]).0 == file,
{
    missing_there_members(c.ours, inventory(theirs), c.deleted, file);
    missing_there_members(c.ours, Map::empty(), c.deleted, file);
    an_inventory_knows_the_last_listing(theirs, 0, file.id);
}

proof fn missing_there_members(
    ours: Seq<(FileId, u64)>,
    theirs: Map<u128, u64>,
    deleted: Set<u128>,
    file: FileId,
)
    ensures
        missing_there(ours, theirs, deleted).contains(file) <==> !theirs.dom().contains(file.id)
            && !deleted.contains(file.id) && exists|i: int|
            0 <= i < ours.len() && (#[trigger] ours[i]).0 == file,
    decreases ours.len(),
{
    if ours.len() > 0 {
        let init = ours.drop_last();
        let last = ours.len() - 1;
        missing_there_members(init, theirs, deleted, file);
        let m0 = missing_there(init, theirs, deleted);
        let m = missing_there(ours, theirs, deleted);
        if m0.contains(file) {
            let k = choose|k: int| 0 <= k < m0.len() && m0[k] == file;
            assert(m[k] == file);
        }
        if m.contains(file) {
            let k = choose|k: int| 0 <= k < m.len() && m[k] == file;
            if k < m0.len() {
                assert(m0[k] == file);
                let i = choose|i: int| 0 <= i < init.len() && (#[trigger] init[i]).0 == file;
                assert(ours[i].0 == file);
            } else {
                assert(ours[last].0 == file);
            }
        }
        if !theirs.dom().contains(file.id) && !deleted.contains(file.id) && exists|i: int|
            0 <= i < ours.len() && (#[trigger] ours[i]).0 == file {
            let i = choose|i: int| 0 <= i < ours.len() && (#[trigger] ours[i]).0 == file;
            if i < last {
                assert(init[i].0 == file);
                assert(m0.contains(file));
            } else {
                assert(m[m.len() - 1] == file);
            }
        }
    }
}

} // verus!
