//! How the worker that stores records gathers them.
use crate::types::{recs, FileId, FileMetadata, FileRec};
use vstd::prelude::*;

verus! {

/// How many records are stored together at most.
pub const BATCH_MAX_ITEMS: usize = 256;

/// How long the worker waits for more of them.
pub const BATCH_MAX_LINGER_MS: u64 = 8;

/// What the worker does next.
#[derive(Clone, Copy, Debug, PartialEq, Eq, Structural)]
pub enum WorkerStep {
    /// Look for a further record.
    Look,
    /// Wait a moment, and look again.
    Pause,
    /// Store what there is.
    Store,
    /// Store what there is, and end.
    StoreAndEnd,
}

/// The records that are stored together. The first one is waited for; with batching on, further
/// ones are taken along as long as they come quickly.
#[derive(Debug)]
pub struct StoreBatch {
    items: Vec<FileMetadata>,
    batching: bool,
    deadline_ms: u64,
}

pub ghost struct Gathered {
    /// The records, in the order in which they came.
    pub items: Seq<FileRec>,
    pub batching: bool,
    /// When the worker stops waiting for more.
    pub deadline_ms: int,
}

impl View for StoreBatch {
    type V = Gathered;

    closed spec fn view(&self) -> Gathered {
        Gathered {
            items: recs(self.items@),
            batching: self.batching,
            deadline_ms: self.deadline_ms as int,
        }
    }
}

impl Gathered {
    /// What the worker does with what it has.
    pub open spec fn step(self) -> WorkerStep {
        if self.batching && self.items.len() < BATCH_MAX_ITEMS {
            WorkerStep::Look
        } else {
            WorkerStep::Store
        }
    }

    pub open spec fn wf(self) -> bool {
        1 <= self.items.len() <= BATCH_MAX_ITEMS
    }
}

/// When a worker that began a batch stops waiting for more.
pub open spec fn waits_until(now_ms: u64) -> int {
    now_ms + BATCH_MAX_LINGER_MS
}

/// What a worker does that found no further record.
pub open spec fn without_more(deadline_ms: int, now_ms: u64) -> WorkerStep {
    if now_ms >= deadline_ms {
        WorkerStep::Store
    } else {
        WorkerStep::Pause
    }
}

impl StoreBatch {
    /// A batch begins with the record that came.
    pub fn begins(first: FileMetadata, batching: bool, now_ms: u64) -> (b: StoreBatch)
        requires
            now_ms + BATCH_MAX_LINGER_MS <= u64::MAX,
        ensures
            b@.wf(),
            b@ == (Gathered {
                items: seq![first@],
                batching: batching,
                deadline_ms: now_ms + BATCH_MAX_LINGER_MS,
            }),
            b@.deadline_ms == waits_until(now_ms),
    {
        let items: Vec<FileMetadata> = vec![first];
        assert(recs(items@) =~= seq![first@]);
        StoreBatch { items, batching, deadline_ms: now_ms + BATCH_MAX_LINGER_MS }
    }

    /// What is to be done with what there is.
    pub fn step(&self) -> (r: WorkerStep)
        ensures
            r == self@.step(),
    {
        if self.batching && self.items.len() < BATCH_MAX_ITEMS {
            WorkerStep::Look
        } else {
            WorkerStep::Store
        }
    }

    /// A look found another record.
    pub fn got(&mut self, item: FileMetadata) -> (r: WorkerStep)
        requires
            old(self)@.wf(),
            old(self)@.step() == WorkerStep::Look,
        ensures
            final(self)@.wf(),
            final(self)@ == (Gathered { items: old(self)@.items.push(item@), ..old(self)@ }),
            r == final(self)@.step(),
    {
        let ghost before = recs(self.items@);
        let ghost iv = item@;
        self.items.push(item);
        assert(recs(self.items@) =~= before.push(iv));
        self.step()
    }

    /// A look found none.
    pub fn found_none(&self, now_ms: u64) -> (r: WorkerStep)
        ensures
            r == (if now_ms >= self@.deadline_ms {
                WorkerStep::Store
            } else {
                WorkerStep::Pause
            }),
            r == without_more(self@.deadline_ms, now_ms),
    {
        if now_ms >= self.deadline_ms {
            WorkerStep::Store
        } else {
            WorkerStep::Pause
        }
    }

    /// A look found that no record will come any more.
    pub fn closed(&self) -> (r: WorkerStep)
        ensures
            r == WorkerStep::StoreAndEnd,
    {
        WorkerStep::StoreAndEnd
    }

    /// The files that the batch has records of, one entry for each record.
    pub fn files(&self) -> (r: Vec<FileId>)
        ensures
            r@ == self@.items.map_values(|f: FileRec| f.id),
    {
        let ghost all = recs(self.items@);
        let mut out: Vec<FileId> = Vec::new();
        let mut i: usize = 0;
        while i < self.items.len()
            invariant
                i <= self.items@.len(),
                all == recs(self.items@),
                out@ =~= all.map_values(|f: FileRec| f.id).take(i as int),
            decreases self.items@.len() - i,
        {
            assert(all[i as int] == self.items@[i as int]@);
            out.push(self.items[i].id);
            i += 1;
        }
        out
    }

    /// The records.
    pub fn into_items(self) -> (r: Vec<FileMetadata>)
        ensures
            recs(r@) == self@.items,
    {
        self.items
    }
}

/// What a batch came to after these records came in, the first of which began it.
pub open spec fn gathered_from(items: Seq<FileRec>, batching: bool, deadline_ms: int) -> Gathered
    decreases items.len(),
{
    if items.len() <= 1 {
        Gathered { items: items, batching: batching, deadline_ms: deadline_ms }
    } else {
        let sofar = gathered_from(items.drop_last(), batching, deadline_ms);
        Gathered { items: sofar.items.push(items.last()), ..sofar }
    }
}

/// A batch loses no record, keeps them in order, and waits no longer for the last of them than
/// it does for the second.
pub proof fn a_batch_keeps_what_came(items: Seq<FileRec>, batching: bool, deadline_ms: int)
    requires
        items.len() > 0,
    ensures
        gathered_from(items, batching, deadline_ms).items == items,
        gathered_from(items, batching, deadline_ms).deadline_ms == deadline_ms,
    decreases items.len(),
{
    if items.len() > 1 {
        a_batch_keeps_what_came(items.drop_last(), batching, deadline_ms);
        assert(items.drop_last().push(items.last()) =~= items);
    }
}

} // verus!
