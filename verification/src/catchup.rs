//! Catching up: what a leader takes over from its followers and sends them in turn.
use crate::metadata::{broadcast_targets, online_peers};
use crate::protocol::DeleteQueueEntry;
use crate::types::{FileId, NodeId, NodeInfo};
use std::collections::{HashMap, HashSet};
use vstd::prelude::*;

verus! {

/// The versions of files by their identities. Where a file is listed twice, the later counts.
pub open spec fn inventory(list: Seq<(FileId, u64)>) -> Map<u128, u64>
    decreases list.len(),
{
    if list.len() == 0 {
        Map::empty()
    } else {
        inventory(list.drop_last()).insert(list.last().0.id, list.last().1)
    }
}

/// The files that a delete queue names.
pub open spec fn deleted_files(entries: Seq<DeleteQueueEntry>) -> Set<u128>
    decreases entries.len(),
{
    if entries.len() == 0 {
        Set::empty()
    } else {
        deleted_files(entries.drop_last()).insert(entries.last().file_id.id)
    }
}

/// Indexes an inventory by file.
pub fn inventory_map(list: &Vec<(FileId, u64)>) -> (r: HashMap<u128, u64>)
    ensures
        r@ == inventory(list@),
{
    broadcast use vstd::std_specs::hash::group_hash_axioms;

    let mut out: HashMap<u128, u64> = HashMap::new();
    let mut i: usize = 0;
    assert(list@.take(0) =~= Seq::<(FileId, u64)>::empty());
    while i < list.len()
        invariant
            i <= list@.len(),
            out@ == inventory(list@.take(i as int)),
        decreases list@.len() - i,
    {
        proof {
            assert(list@.take(i + 1).drop_last() =~= list@.take(i as int));
            assert(list@.take(i + 1).last() == list@[i as int]);
        }
        let _ = out.insert(list[i].0.id, list[i].1);
        i += 1;
    }
    assert(list@.take(i as int) =~= list@);
    out
}

/// Indexes a delete queue by file.
pub fn deleted_set(entries: &Vec<DeleteQueueEntry>) -> (r: HashSet<u128>)
    ensures
        r@ == deleted_files(entries@),
{
    broadcast use vstd::std_specs::hash::group_hash_axioms;

    let mut out: HashSet<u128> = HashSet::new();
    let mut i: usize = 0;
    assert(entries@.take(0) =~= Seq::<DeleteQueueEntry>::empty());
    while i < entries.len()
        invariant
            i <= entries@.len(),
            out@ == deleted_files(entries@.take(i as int)),
        decreases entries@.len() - i,
    {
        proof {
            assert(entries@.take(i + 1).drop_last() =~= entries@.take(i as int));
            assert(entries@.take(i + 1).last() == entries@[i as int]);
        }
        let _ = out.insert(entries[i].file_id.id);
        i += 1;
    }
    assert(entries@.take(i as int) =~= entries@);
    out
}

/// A file of a follower's inventory is taken over: it does not wait to be deleted, and is
/// unknown here or older.
pub open spec fn takes_over(
    file: FileId,
    version: u64,
    mine: Map<u128, u64>,
    deleted: Set<u128>,
) -> bool {
    !deleted.contains(file.id) && (!mine.dom().contains(file.id) || version > mine[file.id])
}

/// The files to take over from a follower, in the order of its inventory.
pub open spec fn missing_here(
    theirs: Seq<(FileId, u64)>,
    mine: Map<u128, u64>,
    deleted: Set<u128>,
) -> Seq<FileId>
    decreases theirs.len(),
{
    if theirs.len() == 0 {
        Seq::empty()
    } else {
        let sofar = missing_here(theirs.drop_last(), mine, deleted);
        if takes_over(theirs.last().0, theirs.last().1, mine, deleted) {
            sofar.push(theirs.last().0)
        } else {
            sofar
        }
    }
}

/// Finds the files to take over from a follower.
pub fn find_missing(
    theirs: &Vec<(FileId, u64)>,
    mine: &HashMap<u128, u64>,
    deleted: &HashSet<u128>,
) -> (r: Vec<FileId>)
    ensures
        r@ == missing_here(theirs@, mine@, deleted@),
{
    broadcast use vstd::std_specs::hash::group_hash_axioms;

    let mut out: Vec<FileId> = Vec::new();
    let mut i: usize = 0;
    assert(theirs@.take(0) =~= Seq::<(FileId, u64)>::empty());
    while i < theirs.len()
        invariant
            i <= theirs@.len(),
            out@ == missing_here(theirs@.take(i as int), mine@, deleted@),
        decreases theirs@.len() - i,
    {
        proof {
            assert(theirs@.take(i + 1).drop_last() =~= theirs@.take(i as int));
            assert(theirs@.take(i + 1).last() == theirs@[i as int]);
        }
        let id: FileId = theirs[i].0;
        if !deleted.contains(&id.id) {
            let newer: bool = match mine.get(&id.id) {
                Some(v) => theirs[i].1 > *v,
                None => true,
            };
            if newer {
                out.push(id);
            }
        }
        i += 1;
    }
    assert(theirs@.take(i as int) =~= theirs@);
    out
}

/// The files of an inventory that a follower lacks and that do not wait to be deleted, in order.
pub open spec fn missing_there(
    ours: Seq<(FileId, u64)>,
    theirs: Map<u128, u64>,
    deleted: Set<u128>,
) -> Seq<FileId>
    decreases ours.len(),
{
    if ours.len() == 0 {
        Seq::empty()
    } else {
        let sofar = missing_there(ours.drop_last(), theirs, deleted);
        let file = ours.last().0;
        if !theirs.dom().contains(file.id) && !deleted.contains(file.id) {
            sofar.push(file)
        } else {
            sofar
        }
    }
}

/// Finds the files to queue for a follower.
pub fn find_missing_there(
    ours: &Vec<(FileId, u64)>,
    theirs: &HashMap<u128, u64>,
    deleted: &HashSet<u128>,
) -> (r: Vec<FileId>)
    ensures
        r@ == missing_there(ours@, theirs@, deleted@),
{
    broadcast use vstd::std_specs::hash::group_hash_axioms;

    let mut out: Vec<FileId> = Vec::new();
    let mut i: usize = 0;
    assert(ours@.take(0) =~= Seq::<(FileId, u64)>::empty());
    while i < ours.len()
        invariant
            i <= ours@.len(),
            out@ == missing_there(ours@.take(i as int), theirs@, deleted@),
        decreases ours@.len() - i,
    {
        proof {
            assert(ours@.take(i + 1).drop_last() =~= ours@.take(i as int));
            assert(ours@.take(i + 1).last() == ours@[i as int]);
        }
        let id: FileId = ours[i].0;
        if !theirs.contains_key(&id.id) && !deleted.contains(&id.id) {
            out.push(id);
        }
        i += 1;
    }
    assert(ours@.take(i as int) =~= ours@);
    out
}

/// The files of the leader's inventory that a follower lacks or has an older version of.
pub open spec fn behind_there(ours: Seq<(FileId, u64)>, theirs: Map<u128, u64>) -> Seq<FileId>
    decreases ours.len(),
{
    if ours.len() == 0 {
        Seq::empty()
    } else {
        let sofar = behind_there(ours.drop_last(), theirs);
        let file = ours.last().0;
        if !theirs.dom().contains(file.id) || theirs[file.id] < ours.last().1 {
            sofar.push(file)
        } else {
            sofar
        }
    }
}

/// Finds the files whose records are pushed to a follower in a full sweep.
pub fn find_behind(ours: &Vec<(FileId, u64)>, theirs: &HashMap<u128, u64>) -> (r: Vec<FileId>)
    ensures
        r@ == behind_there(ours@, theirs@),
{
    broadcast use vstd::std_specs::hash::group_hash_axioms;

    let mut out: Vec<FileId> = Vec::new();
    let mut i: usize = 0;
    assert(ours@.take(0) =~= Seq::<(FileId, u64)>::empty());
    while i < ours.len()
        invariant
            i <= ours@.len(),
            out@ == behind_there(ours@.take(i as int), theirs@),
        decreases ours@.len() - i,
    {
        proof {
            assert(ours@.take(i + 1).drop_last() =~= ours@.take(i as int));
            assert(ours@.take(i + 1).last() == ours@[i as int]);
        }
        let id: FileId = ours[i].0;
        let lags: bool = match theirs.get(&id.id) {
            Some(v) => *v < ours[i].1,
            None => true,
        };
        if lags {
            out.push(id);
        }
        i += 1;
    }
    assert(ours@.take(i as int) =~= ours@);
    out
}

/// A full sweep pushes just the files that the follower lags on: of every other file the
/// follower has a version that is no older.
pub proof fn sweep_pushes_just_what_lags(ours: Seq<(FileId, u64)>, theirs: Map<u128, u64>, k: int)
    requires
        0 <= k < ours.len(),
    ensures
        behind_there(ours, theirs).contains(ours[k].0) <==> lags_somewhere(
            ours,
            theirs,
            ours[k].0,
        ),
        !lags_somewhere(ours, theirs, ours[k].0) ==> theirs.dom().contains(ours[k].0.id)
            && theirs[ours[k].0.id] >= ours[k].1,
    decreases ours.len(),
{
    behind_contains(ours, theirs, ours[k].0);
    if !lags_somewhere(ours, theirs, ours[k].0) {
        assert(ours[k].0 == ours[k].0);
    }
}

/// Some entry of the file in the leader's inventory is newer than what the follower has.
pub open spec fn lags_somewhere(
    ours: Seq<(FileId, u64)>,
    theirs: Map<u128, u64>,
    file: FileId,
) -> bool {
    exists|i: int|
        0 <= i < ours.len() && (#[trigger] ours[i]).0 == file && (!theirs.dom().contains(file.id)
            || theirs[file.id] < ours[i].1)
}

proof fn behind_contains(ours: Seq<(FileId, u64)>, theirs: Map<u128, u64>, file: FileId)
    ensures
        behind_there(ours, theirs).contains(file) <==> lags_somewhere(ours, theirs, file),
    decreases ours.len(),
{
    if ours.len() > 0 {
        let init = ours.drop_last();
        behind_contains(init, theirs, file);
        let b0 = behind_there(init, theirs);
        let b = behind_there(ours, theirs);
        if b.contains(file) {
            let k = choose|k: int| 0 <= k < b.len() && b[k] == file;
            if k < b0.len() {
                assert(b0[k] == file);
                let i = choose|i: int|
                    0 <= i < init.len() && (#[trigger] init[i]).0 == file && (
                    !theirs.dom().contains(file.id) || theirs[file.id] < init[i].1);
                assert(ours[i].0 == file);
            } else {
                assert(ours[ours.len() - 1].0 == file);
            }
        }
        if lags_somewhere(ours, theirs, file) {
            let i = choose|i: int|
                0 <= i < ours.len() && (#[trigger] ours[i]).0 == file && (!theirs.dom().contains(
                    file.id,
                ) || theirs[file.id] < ours[i].1);
            if i < init.len() {
                assert(init[i].0 == file);
                assert(b0.contains(file));
                let k = choose|k: int| 0 <= k < b0.len() && b0[k] == file;
                assert(b[k] == file);
            } else {
                assert(b[b.len() - 1] == file);
            }
        }
    }
}

proof fn missing_here_members(
    theirs: Seq<(FileId, u64)>,
    mine: Map<u128, u64>,
    deleted: Set<u128>,
)
    ensures
        forall|i: int|
            0 <= i < missing_here(theirs, mine, deleted).len() ==> !deleted.contains(
                (#[trigger] missing_here(theirs, mine, deleted)[i]).id,
            ),
    decreases theirs.len(),
{
    if theirs.len() > 0 {
        missing_here_members(theirs.drop_last(), mine, deleted);
        let m0 = missing_here(theirs.drop_last(), mine, deleted);
        let m = missing_here(theirs, mine, deleted);
        assert forall|i: int| 0 <= i < m.len() implies !deleted.contains(
            (#[trigger] m[i]).id,
        ) by {
            if i < m0.len() {
                assert(m[i] == m0[i]);
            }
        }
    }
}

/// Nothing that waits to be deleted is queued for a follower.
pub proof fn deleted_files_are_not_sent(
    ours: Seq<(FileId, u64)>,
    theirs: Map<u128, u64>,
    deleted: Set<u128>,
)
    ensures
        forall|i: int|
            0 <= i < missing_there(ours, theirs, deleted).len() ==> !deleted.contains(
                (#[trigger] missing_there(ours, theirs, deleted)[i]).id,
            ),
    decreases ours.len(),
{
    if ours.len() > 0 {
        deleted_files_are_not_sent(ours.drop_last(), theirs, deleted);
        let m0 = missing_there(ours.drop_last(), theirs, deleted);
        let m = missing_there(ours, theirs, deleted);
        assert forall|i: int| 0 <= i < m.len() implies !deleted.contains(
            (#[trigger] m[i]).id,
        ) by {
            if i < m0.len() {
                assert(m[i] == m0[i]);
            }
        }
    }
}

/// How many records are fetched at a time.
pub const FETCH_BATCH: usize = 200;

/// Where a catch-up stands.
#[derive(Clone, Copy, Debug, PartialEq, Eq, Structural)]
pub enum CatchupPhase {
    /// Ask the next follower for its inventory, to take over from it.
    Pull,
    /// Fetch records from that follower.
    Fetch,
    /// Count this node's own files anew.
    Recount,
    /// Ask the next follower for its inventory, to send to it.
    Push,
    Done,
}

/// What the catch-up wants next.
#[derive(Debug)]
pub enum CatchupStep {
    AskInventory(NodeId),
    FetchRecords(NodeId, Vec<FileId>),
    Recount,
    Finish,
}

/// A catch-up under way.
pub struct Catchup {
    targets: Vec<NodeId>,
    deleted: HashSet<u128>,
    mine: HashMap<u128, u64>,
    ours: Vec<(FileId, u64)>,
    phase: CatchupPhase,
    next: usize,
    to_fetch: Vec<FileId>,
}

/// What a catch-up holds.
pub ghost struct CatchupState {
    /// The followers that are online.
    pub targets: Seq<NodeId>,
    pub deleted: Set<u128>,
    /// The versions of this node's files when the catch-up began.
    pub mine: Map<u128, u64>,
    /// This node's files after taking over what it lacked.
    pub ours: Seq<(FileId, u64)>,
    pub phase: CatchupPhase,
    /// The follower that is dealt with, by its place.
    pub next: nat,
    /// What is still to be fetched from it.
    pub to_fetch: Seq<FileId>,
}

impl CatchupState {
    pub open spec fn sound(self) -> bool {
        &&& self.next <= self.targets.len()
        &&& (self.phase == CatchupPhase::Pull || self.phase == CatchupPhase::Fetch || self.phase
            == CatchupPhase::Push) ==> self.next < self.targets.len()
        &&& self.phase == CatchupPhase::Fetch <==> self.to_fetch.len() > 0
        &&& forall|i: int|
            0 <= i < self.to_fetch.len() ==> !self.deleted.contains(
                (#[trigger] self.to_fetch[i]).id,
            )
    }

    /// On to the next follower, or to the recount behind the last one.
    pub open spec fn after_pull(self) -> CatchupState {
        if self.next + 1 < self.targets.len() {
            CatchupState {
                phase: CatchupPhase::Pull,
                next: self.next + 1,
                to_fetch: Seq::empty(),
                ..self
            }
        } else {
            CatchupState {
                phase: CatchupPhase::Recount,
                next: self.next + 1,
                to_fetch: Seq::empty(),
                ..self
            }
        }
    }

    /// How many records the next batch holds.
    pub open spec fn batch_len(self) -> int {
        if self.to_fetch.len() <= FETCH_BATCH {
            self.to_fetch.len() as int
        } else {
            FETCH_BATCH as int
        }
    }
}

impl View for Catchup {
    type V = CatchupState;

    closed spec fn view(&self) -> CatchupState {
        CatchupState {
            targets: self.targets@,
            deleted: self.deleted@,
            mine: self.mine@,
            ours: self.ours@,
            phase: self.phase,
            next: self.next as nat,
            to_fetch: self.to_fetch@,
        }
    }
}

/// The catch-up after a follower's inventory came in, of which so much is missing here.
pub open spec fn pulled(c: CatchupState, missing: Seq<FileId>) -> CatchupState {
    if missing.len() > 0 {
        CatchupState { phase: CatchupPhase::Fetch, to_fetch: missing, ..c }
    } else {
        c.after_pull()
    }
}

/// The catch-up after a batch was dealt with.
pub open spec fn fetched(c: CatchupState) -> CatchupState {
    let rest = c.to_fetch.skip(c.batch_len());
    if rest.len() > 0 {
        CatchupState { to_fetch: rest, ..c }
    } else {
        c.after_pull()
    }
}

/// The catch-up after the node's own files were counted anew.
pub open spec fn counted_anew(c: CatchupState, own: Option<Seq<(FileId, u64)>>) -> CatchupState {
    match own {
        Some(list) => CatchupState {
            ours: list,
            next: 0,
            phase: if c.targets.len() > 0 {
                CatchupPhase::Push
            } else {
                CatchupPhase::Done
            },
            ..c
        },
        None => CatchupState { phase: CatchupPhase::Done, ..c },
    }
}

/// The catch-up after a follower was sent what it lacks.
pub open spec fn pushed(c: CatchupState) -> CatchupState {
    CatchupState {
        next: c.next + 1,
        phase: if c.next + 1 < c.targets.len() {
            CatchupPhase::Push
        } else {
            CatchupPhase::Done
        },
        ..c
    }
}

/// What is to be sent to a follower; one without an inventory counts as one that has nothing.
pub open spec fn owed_to(c: CatchupState, theirs: Option<Seq<(FileId, u64)>>) -> Seq<FileId> {
    missing_there(
        c.ours,
        match theirs {
            Some(t) => inventory(t),
            None => Map::<u128, u64>::empty(),
        },
        c.deleted,
    )
}

/// What is to be fetched from a follower; of one without an inventory nothing.
pub open spec fn owed_by(c: CatchupState, theirs: Option<Seq<(FileId, u64)>>) -> Seq<FileId> {
    match theirs {
        Some(t) => missing_here(t, c.mine, c.deleted),
        None => Seq::empty(),
    }
}

impl Catchup {
    /// Starts a catch-up with the followers that are online.
    pub fn new(
        nodes: &Vec<NodeInfo>,
        local: NodeId,
        own: &Vec<(FileId, u64)>,
        delete_queue: &Vec<DeleteQueueEntry>,
    ) -> (c: Catchup)
        ensures
            c@.sound(),
            c@.targets == online_peers(nodes@, local),
            c@.deleted == deleted_files(delete_queue@),
            c@.mine == inventory(own@),
            c@.next == 0,
            c@.phase == (if online_peers(nodes@, local).len() > 0 {
                CatchupPhase::Pull
            } else {
                CatchupPhase::Recount
            }),
    {
        let targets: Vec<NodeId> = broadcast_targets(nodes, local);
        let phase: CatchupPhase = if targets.len() > 0 {
            CatchupPhase::Pull
        } else {
            CatchupPhase::Recount
        };
        Catchup {
            targets,
            deleted: deleted_set(delete_queue),
            mine: inventory_map(own),
            ours: Vec::new(),
            phase,
            next: 0,
            to_fetch: Vec::new(),
        }
    }

    /// What is wanted next.
    pub fn step(&self) -> (r: CatchupStep)
        requires
            self@.sound(),
        ensures
            match self@.phase {
                CatchupPhase::Pull | CatchupPhase::Push => r == CatchupStep::AskInventory(
                    self@.targets[self@.next as int],
                ),
                CatchupPhase::Fetch => match r {
                    CatchupStep::FetchRecords(node, files) => node
                        == self@.targets[self@.next as int] && files@ == self@.to_fetch.take(
                        self@.batch_len(),
                    ),
                    _ => false,
                },
                CatchupPhase::Recount => r is Recount,
                CatchupPhase::Done => r is Finish,
            },
    {
        match self.phase {
            CatchupPhase::Pull | CatchupPhase::Push => CatchupStep::AskInventory(
                self.targets[self.next],
            ),
            CatchupPhase::Fetch => {
                let n: usize = if self.to_fetch.len() <= FETCH_BATCH {
                    self.to_fetch.len()
                } else {
                    FETCH_BATCH
                };
                let mut files: Vec<FileId> = Vec::new();
                let mut i: usize = 0;
                while i < n
                    invariant
                        i <= n <= self.to_fetch@.len(),
                        files@ =~= self.to_fetch@.take(i as int),
                    decreases n - i,
                {
                    files.push(self.to_fetch[i]);
                    i += 1;
                }
                CatchupStep::FetchRecords(self.targets[self.next], files)
            },
            CatchupPhase::Recount => CatchupStep::Recount,
            CatchupPhase::Done => CatchupStep::Finish,
        }
    }

    fn advance_pull(&mut self)
        requires
            old(self)@.sound(),
            old(self)@.next < old(self)@.targets.len(),
        ensures
            final(self)@ == old(self)@.after_pull(),
            final(self)@.sound(),
    {
        let n: usize = self.targets.len();
        self.next = self.next + 1;
        self.to_fetch = Vec::new();
        if self.next < n {
            self.phase = CatchupPhase::Pull;
        } else {
            self.phase = CatchupPhase::Recount;
        }
        assert(self@.to_fetch =~= Seq::<FileId>::empty());
    }

    /// Takes in a follower's inventory, none if it gave none. If it has something to take over,
    /// that is fetched next; otherwise its turn is over.
    pub fn pull_inventory(&mut self, theirs: Option<&Vec<(FileId, u64)>>)
        requires
            old(self)@.sound(),
            old(self)@.phase == CatchupPhase::Pull,
        ensures
            final(self)@.sound(),
            ({
                let missing = match theirs {
                    Some(t) => missing_here(t@, old(self)@.mine, old(self)@.deleted),
                    None => Seq::<FileId>::empty(),
                };
                final(self)@ == (if missing.len() > 0 {
                    CatchupState {
                        phase: CatchupPhase::Fetch,
                        to_fetch: missing,
                        ..old(self)@
                    }
                } else {
                    old(self)@.after_pull()
                })
            }),
            final(self)@ == pulled(
                old(self)@,
                owed_by(
                    old(self)@,
                    match theirs {
                        Some(t) => Some(t@),
                        None => None,
                    },
                ),
            ),
    {
        match theirs {
            Some(t) => {
                let missing: Vec<FileId> = find_missing(t, &self.mine, &self.deleted);
                proof {
                    missing_here_members(t@, self@.mine, self@.deleted);
                }
                if missing.len() > 0 {
                    self.phase = CatchupPhase::Fetch;
                    self.to_fetch = missing;
                } else {
                    self.advance_pull();
                }
            },
            None => {
                self.advance_pull();
            },
        }
    }

    /// The batch was dealt with, whether or not it could be fetched. Behind the last batch the
    /// follower's turn is over.
    pub fn batch_done(&mut self)
        requires
            old(self)@.sound(),
            old(self)@.phase == CatchupPhase::Fetch,
        ensures
            final(self)@.sound(),
            ({
                let rest = old(self)@.to_fetch.skip(old(self)@.batch_len());
                final(self)@ == (if rest.len() > 0 {
                    CatchupState { to_fetch: rest, ..old(self)@ }
                } else {
                    old(self)@.after_pull()
                })
            }),
            final(self)@ == fetched(old(self)@),
    {
        let ghost before = self@;
        if self.to_fetch.len() <= FETCH_BATCH {
            assert(before.to_fetch.skip(before.batch_len()).len() == 0);
            self.advance_pull();
        } else {
            let rest: Vec<FileId> = self.to_fetch.split_off(FETCH_BATCH);
            self.to_fetch = rest;
            assert(self@.to_fetch =~= before.to_fetch.skip(before.batch_len()));
            assert forall|i: int| 0 <= i < self@.to_fetch.len() implies !self@.deleted.contains(
                (#[trigger] self@.to_fetch[i]).id,
            ) by {
                assert(self@.to_fetch[i] == before.to_fetch[i + FETCH_BATCH]);
            }
        }
    }

    /// Takes in this node's own files, counted anew. Without a count there is nothing to send.
    pub fn recounted(&mut self, own: Option<Vec<(FileId, u64)>>)
        requires
            old(self)@.sound(),
            old(self)@.phase == CatchupPhase::Recount,
        ensures
            final(self)@.sound(),
            match own {
                Some(list) => final(self)@ == (CatchupState {
                    ours: list@,
                    next: 0,
                    phase: if old(self)@.targets.len() > 0 {
                        CatchupPhase::Push
                    } else {
                        CatchupPhase::Done
                    },
                    ..old(self)@
                }),
                None => final(self)@ == (CatchupState { phase: CatchupPhase::Done, ..old(self)@ }),
            },
            final(self)@ == counted_anew(
                old(self)@,
                match own {
                    Some(list) => Some(list@),
                    None => None,
                },
            ),
    {
        match own {
            Some(list) => {
                self.ours = list;
                self.next = 0;
                self.phase = if self.targets.len() > 0 {
                    CatchupPhase::Push
                } else {
                    CatchupPhase::Done
                };
            },
            None => {
                self.phase = CatchupPhase::Done;
            },
        }
    }

    /// Takes in a follower's inventory and says what to queue for it: every file that it lacks
    /// and that does not wait to be deleted. A follower that gave no inventory counts as one
    /// that has nothing.
    pub fn push_inventory(&mut self, theirs: Option<&Vec<(FileId, u64)>>) -> (r: Vec<FileId>)
        requires
            old(self)@.sound(),
            old(self)@.phase == CatchupPhase::Push,
        ensures
            final(self)@.sound(),
            final(self)@ == (CatchupState {
                next: old(self)@.next + 1,
                phase: if old(self)@.next + 1 < old(self)@.targets.len() {
                    CatchupPhase::Push
                } else {
                    CatchupPhase::Done
                },
                ..old(self)@
            }),
            r@ == missing_there(
                old(self)@.ours,
                match theirs {
                    Some(t) => inventory(t@),
                    None => Map::<u128, u64>::empty(),
                },
                old(self)@.deleted,
            ),
            final(self)@ == pushed(old(self)@),
            r@ == owed_to(
                old(self)@,
                match theirs {
                    Some(t) => Some(t@),
                    None => None,
                },
            ),
    {
        broadcast use vstd::std_specs::hash::group_hash_axioms;

        let has: HashMap<u128, u64> = match theirs {
            Some(t) => inventory_map(t),
            None => HashMap::new(),
        };
        let r: Vec<FileId> = find_missing_there(&self.ours, &has, &self.deleted);
        let n: usize = self.targets.len();
        self.next = self.next + 1;
        self.phase = if self.next < n {
            CatchupPhase::Push
        } else {
            CatchupPhase::Done
        };
        r
    }
}

/// A catch-up never fetches a file that waits to be deleted, so it cannot bring one back.
pub proof fn catchup_brings_nothing_back(c: CatchupState, k: int)
    requires
        c.sound(),
        0 <= k < c.batch_len(),
    ensures
        !c.deleted.contains(c.to_fetch.take(c.batch_len())[k].id),
{
    assert(c.to_fetch.take(c.batch_len())[k] == c.to_fetch[k]);
}

} // verus!
