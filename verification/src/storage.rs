//! Local chunk storage: what is cached, what is listed, and when a write is durable.
use crate::cache::{stored, touched, value_of, without, Cached, ChunkCache, MAX_CACHE_ENTRIES};
use crate::chunk_index::{ascending, page_of, ChunkIndex};
use crate::digest::{compute_chunk_hash_at, content_digest_at};
use crate::names::{
    chunk_id_from_filename, is_temp_name, is_temp_name_exec, named_chunk,
};
use crate::shared_maps::{
    lists_reasons, reason_entries, reasons_get, reasons_insert, reasons_list, reasons_new,
};
use crate::text::{decimal, join_number};
use crate::types::{ChunkId, FileId};
use dashmap::DashMap;
use std::sync::Arc;
use vstd::prelude::*;
use vstd::utf8::encode_utf8;

verus! {

/// Takes the next number from the write counter. Each write gets its own, so that two writes of
/// one chunk use different temporary files.
pub fn next_write_seq(counter: &mut u64) -> (seq: u64)
    ensures
        seq == *old(counter),
        *final(counter) == (if seq < u64::MAX {
            (seq + 1) as u64
        } else {
            0u64
        }),
{
    let seq: u64 = *counter;
    *counter = seq.wrapping_add(1);
    seq
}

// ---------------------------------------------------------------------------
// Durability.
// ---------------------------------------------------------------------------

/// Who waits for a write to be durable.
#[derive(Clone, Copy, Debug, PartialEq, Eq, Structural)]
pub enum DurabilityClass {
    /// Client-facing write: flush immediately, block until durable.
    Foreground,
    /// Background repair: linger to batch, block until durable.
    Background,
}

/// What the flush worker does next.
#[derive(Clone, Copy, Debug, PartialEq, Eq, Structural)]
pub enum FlushStep {
    /// Wait for a request, however long it takes.
    Idle,
    /// Wait for a request, but not past this time.
    WaitUntil(u64),
    /// Take in what else is queued, and flush.
    Flush,
    /// Nobody can ask any more: end.
    Stop,
}

/// Gathers durability requests into batches, each made durable by one flush.
pub struct DurabilityCoalescer {
    linger_ms: u64,
    batch: Vec<DurabilityClass>,
    deadline_ms: u64,
    batches: u64,
    foreground: u64,
    background: u64,
}

/// What a coalescer holds.
pub ghost struct Batching {
    pub linger_ms: u64,
    /// The requests that wait for the next flush, in the order in which they came.
    pub batch: Seq<DurabilityClass>,
    /// When the batch is flushed at the latest. Set by its first request.
    pub deadline_ms: u64,
    /// Flushes, foreground requests and background requests since the last summary.
    pub batches: nat,
    pub foreground: nat,
    pub background: nat,
}

impl View for DurabilityCoalescer {
    type V = Batching;

    closed spec fn view(&self) -> Batching {
        Batching {
            linger_ms: self.linger_ms,
            batch: self.batch@,
            deadline_ms: self.deadline_ms,
            batches: self.batches as nat,
            foreground: self.foreground as nat,
            background: self.background as nat,
        }
    }
}

/// How many requests of a class there are.
pub open spec fn count_class(batch: Seq<DurabilityClass>, class: DurabilityClass) -> nat
    decreases batch.len(),
{
    if batch.len() == 0 {
        0
    } else {
        count_class(batch.drop_last(), class) + if batch.last() == class {
            1nat
        } else {
            0nat
        }
    }
}

impl Batching {
    /// What the worker does next: nothing waits; or a foreground request waits, or the batch has
    /// lingered long enough, and it is flushed; or it lingers on.
    pub open spec fn next_step(self, now_ms: u64) -> FlushStep {
        if self.batch.len() == 0 {
            FlushStep::Idle
        } else if self.batch.contains(DurabilityClass::Foreground) || now_ms >= self.deadline_ms {
            FlushStep::Flush
        } else {
            FlushStep::WaitUntil(self.deadline_ms)
        }
    }

    /// The coalescer after a request came in.
    pub open spec fn with_request(self, class: DurabilityClass, now_ms: u64) -> Batching {
        Batching {
            batch: self.batch.push(class),
            deadline_ms: if self.batch.len() == 0 {
                (now_ms + self.linger_ms) as u64
            } else {
                self.deadline_ms
            },
            ..self
        }
    }

    /// The coalescer after a request that was queued already joined a batch about to be flushed.
    pub open spec fn with_swept(self, class: DurabilityClass) -> Batching {
        Batching { batch: self.batch.push(class), ..self }
    }

    /// The coalescer after its batch was flushed.
    pub open spec fn after_flush(self) -> Batching {
        Batching {
            batch: Seq::empty(),
            batches: self.batches + 1,
            foreground: self.foreground + count_class(self.batch, DurabilityClass::Foreground),
            background: self.background + count_class(self.batch, DurabilityClass::Background),
            ..self
        }
    }
}

impl DurabilityCoalescer {
    pub fn new(linger_ms: u64) -> (c: DurabilityCoalescer)
        ensures
            c@ == (Batching {
                linger_ms,
                batch: Seq::empty(),
                deadline_ms: 0,
                batches: 0,
                foreground: 0,
                background: 0,
            }),
    {
        DurabilityCoalescer {
            linger_ms,
            batch: Vec::new(),
            deadline_ms: 0,
            batches: 0,
            foreground: 0,
            background: 0,
        }
    }

    fn has_foreground(&self) -> (r: bool)
        ensures
            r == self@.batch.contains(DurabilityClass::Foreground),
    {
        let mut i: usize = 0;
        while i < self.batch.len()
            invariant
                i <= self.batch@.len(),
                forall|j: int| 0 <= j < i ==> self.batch@[j] != DurabilityClass::Foreground,
            decreases self.batch@.len() - i,
        {
            if self.batch[i] == DurabilityClass::Foreground {
                assert(self.batch@[i as int] == DurabilityClass::Foreground);
                return true;
            }
            i += 1;
        }
        false
    }

    /// What the worker does at this time.
    pub fn next_step(&self, now_ms: u64) -> (r: FlushStep)
        ensures
            r == self@.next_step(now_ms),
    {
        if self.batch.len() == 0 {
            FlushStep::Idle
        } else if self.has_foreground() || now_ms >= self.deadline_ms {
            FlushStep::Flush
        } else {
            FlushStep::WaitUntil(self.deadline_ms)
        }
    }

    /// Takes a request into the batch and says what the worker does next.
    pub fn request(&mut self, class: DurabilityClass, now_ms: u64) -> (r: FlushStep)
        requires
            now_ms + old(self)@.linger_ms <= u64::MAX,
        ensures
            final(self)@ == old(self)@.with_request(class, now_ms),
            r == final(self)@.next_step(now_ms),
            class == DurabilityClass::Foreground ==> r == FlushStep::Flush,
    {
        if self.batch.len() == 0 {
            self.deadline_ms = now_ms + self.linger_ms;
        }
        self.batch.push(class);
        proof {
            if class == DurabilityClass::Foreground {
                assert(self@.batch[self@.batch.len() - 1] == DurabilityClass::Foreground);
            }
        }
        self.next_step(now_ms)
    }

    /// What the worker does once nobody can ask any more: what still waits is flushed first.
    pub fn callers_gone(&self) -> (r: FlushStep)
        ensures
            r == (if self@.batch.len() == 0 {
                FlushStep::Stop
            } else {
                FlushStep::Flush
            }),
    {
        if self.batch.len() == 0 {
            FlushStep::Stop
        } else {
            FlushStep::Flush
        }
    }

    /// Takes a request that was queued already into a batch that is about to be flushed.
    pub fn sweep(&mut self, class: DurabilityClass)
        ensures
            final(self)@ == old(self)@.with_swept(class),
    {
        self.batch.push(class);
    }

    /// Ends the batch with the result of its flush. Every request of it is answered with that
    /// one result.
    pub fn flushed(&mut self, result: Result<(), String>) -> (replies: Vec<Result<(), String>>)
        requires
            old(self)@.batches < u64::MAX,
            old(self)@.foreground + old(self)@.batch.len() <= u64::MAX,
            old(self)@.background + old(self)@.batch.len() <= u64::MAX,
        ensures
            answers_of(replies@) == same_answers(old(self)@.batch.len(), answer_of(result)),
            final(self)@ == old(self)@.after_flush(),
    {
        let mut replies: Vec<Result<(), String>> = Vec::new();
        let ghost b0 = self@;
        let n: usize = self.batch.len();
        let mut fg: u64 = 0;
        let mut bg: u64 = 0;
        let mut i: usize = 0;
        assert(b0.batch.take(0) =~= Seq::<DurabilityClass>::empty());
        while i < n
            invariant
                i <= n,
                self@ == b0,
                n == b0.batch.len(),
                b0.foreground + n <= u64::MAX,
                b0.background + n <= u64::MAX,
                replies@.len() == i,
                fg <= i,
                bg <= i,
                fg == count_class(b0.batch.take(i as int), DurabilityClass::Foreground),
                bg == count_class(b0.batch.take(i as int), DurabilityClass::Background),
                answers_of(replies@) =~= same_answers(i as nat, answer_of(result)),
            decreases n - i,
        {
            proof {
                assert(b0.batch.take(i + 1).drop_last() =~= b0.batch.take(i as int));
                assert(b0.batch.take(i + 1).last() == b0.batch[i as int]);
            }
            match self.batch[i] {
                DurabilityClass::Foreground => {
                    fg += 1;
                },
                DurabilityClass::Background => {
                    bg += 1;
                },
            }
            let reply: Result<(), String> = match &result {
                Ok(()) => Ok(()),
                Err(text) => Err(text.clone()),
            };
            let ghost sofar = answers_of(replies@);
            let ghost answer = answer_of(reply);
            assert(answer == answer_of(result));
            replies.push(reply);
            assert(answers_of(replies@) =~= sofar.push(answer));
            i += 1;
        }
        assert(b0.batch.take(i as int) =~= b0.batch);
        self.batch = Vec::new();
        self.batches = self.batches + 1;
        self.foreground = self.foreground + fg;
        self.background = self.background + bg;
        assert(self@.batch =~= Seq::<DurabilityClass>::empty());
        replies
    }

    /// The figures since the last summary: flushes, foreground and background requests. They
    /// start again from zero.
    pub fn take_summary(&mut self) -> (r: (u64, u64, u64))
        ensures
            r.0 == old(self)@.batches,
            r.1 == old(self)@.foreground,
            r.2 == old(self)@.background,
            final(self)@ == (Batching {
                batches: 0,
                foreground: 0,
                background: 0,
                ..old(self)@
            }),
    {
        let r: (u64, u64, u64) = (self.batches, self.foreground, self.background);
        self.batches = 0;
        self.foreground = 0;
        self.background = 0;
        r
    }

    /// How a request for durability ends for its caller: the worker was gone when it was handed
    /// over, or went away without answering, or answered.
    pub fn sync_durable(&self, handed_over: bool, reply: Option<Result<(), String>>) -> (r: Result<
        (),
        String,
    >)
        ensures
            !handed_over ==> r is Err && r->Err_0@ == "durability coalescer worker gone"@,
            handed_over && reply is None ==> r is Err && r->Err_0@
                == "durability coalescer dropped reply"@,
            handed_over && reply is Some ==> r == reply->0,
    {
        if !handed_over {
            return Err("durability coalescer worker gone".to_owned());
        }
        match reply {
            Some(r) => r,
            None => Err("durability coalescer dropped reply".to_owned()),
        }
    }
}

/// What a flush came to: it worked, or it failed for this reason.
pub open spec fn answer_of(result: Result<(), String>) -> Result<(), Seq<char>> {
    match result {
        Ok(_) => Ok(()),
        Err(why) => Err(why@),
    }
}

pub open spec fn answers_of(replies: Seq<Result<(), String>>) -> Seq<Result<(), Seq<char>>> {
    replies.map_values(|r: Result<(), String>| answer_of(r))
}

/// So many times the same answer.
pub open spec fn same_answers(n: nat, answer: Result<(), Seq<char>>) -> Seq<
    Result<(), Seq<char>>,
> {
    Seq::new(n, |i: int| answer)
}

// ---------------------------------------------------------------------------
// The flush worker, from its start on.
// ---------------------------------------------------------------------------

/// What happens to the flush worker.
pub ghost enum WorkerEvent {
    /// A request came, at this time.
    Asked(DurabilityClass, u64),
    /// A request that was queued already was taken along.
    Swept(DurabilityClass),
    /// The filesystem was flushed, with this outcome.
    Flushed(Result<(), Seq<char>>),
}

impl WorkerEvent {
    pub open spec fn is_request(self) -> bool {
        !(self is Flushed)
    }
}

/// The coalescer after these events.
pub open spec fn after_events(start: Batching, events: Seq<WorkerEvent>) -> Batching
    decreases events.len(),
{
    if events.len() == 0 {
        start
    } else {
        let before = after_events(start, events.drop_last());
        match events.last() {
            WorkerEvent::Asked(class, now_ms) => before.with_request(class, now_ms),
            WorkerEvent::Swept(class) => before.with_swept(class),
            WorkerEvent::Flushed(_) => before.after_flush(),
        }
    }
}

/// All answers given in the course of these events, in the order in which they were given. A
/// batch is answered in the order of its requests.
pub open spec fn answers_given(start: Batching, events: Seq<WorkerEvent>) -> Seq<
    Result<(), Seq<char>>,
>
    decreases events.len(),
{
    if events.len() == 0 {
        Seq::empty()
    } else {
        let sofar = answers_given(start, events.drop_last());
        match events.last() {
            WorkerEvent::Flushed(outcome) => sofar + same_answers(
                after_events(start, events.drop_last()).batch.len(),
                outcome,
            ),
            _ => sofar,
        }
    }
}

/// How many requests there are among the events.
pub open spec fn requests_in(events: Seq<WorkerEvent>) -> nat
    decreases events.len(),
{
    if events.len() == 0 {
        0
    } else {
        requests_in(events.drop_last()) + if events.last().is_request() {
            1nat
        } else {
            0nat
        }
    }
}

/// The flush that covers a request: the first one behind it.
pub open spec fn covers_request(events: Seq<WorkerEvent>, request: int, flush: int) -> bool {
    &&& 0 <= request < flush < events.len()
    &&& events[request].is_request()
    &&& events[flush] is Flushed
    &&& forall|i: int| request < i < flush ==> (#[trigger] events[i]).is_request()
}

proof fn requests_are_answered_or_wait(start: Batching, events: Seq<WorkerEvent>)
    requires
        start.batch.len() == 0,
    ensures
        answers_given(start, events).len() + after_events(start, events).batch.len()
            == requests_in(events),
    decreases events.len(),
{
    if events.len() > 0 {
        requests_are_answered_or_wait(start, events.drop_last());
    }
}

proof fn requests_up_to(events: Seq<WorkerEvent>, i: int, j: int)
    requires
        0 <= i <= j <= events.len(),
    ensures
        requests_in(events.take(i)) <= requests_in(events.take(j)),
        (forall|k: int| i <= k < j ==> (#[trigger] events[k]).is_request()) ==> requests_in(
            events.take(j),
        ) == requests_in(events.take(i)) + (j - i),
    decreases j - i,
{
    if i < j {
        requests_up_to(events, i, j - 1);
        assert(events.take(j).drop_last() =~= events.take(j - 1));
        assert(events.take(j).last() == events[j - 1]);
    }
}

proof fn answers_only_grow(start: Batching, events: Seq<WorkerEvent>, n: int)
    requires
        0 <= n <= events.len(),
    ensures
        answers_given(start, events.take(n)).is_prefix_of(answers_given(start, events)),
    decreases events.len() - n,
{
    if n == events.len() {
        assert(events.take(n) =~= events);
    } else {
        answers_only_grow(start, events, n + 1);
        assert(events.take(n + 1).drop_last() =~= events.take(n));
        let (a, b, c) = (
            answers_given(start, events.take(n)),
            answers_given(start, events.take(n + 1)),
            answers_given(start, events),
        );
        assert(a =~= b.take(a.len() as int));
        assert(a =~= c.take(a.len() as int));
    }
}

proof fn batch_since_last_flush(start: Batching, events: Seq<WorkerEvent>, request: int)
    requires
        start.batch.len() == 0,
        0 <= request < events.len(),
        forall|i: int| request <= i < events.len() ==> (#[trigger] events[i]).is_request(),
    ensures
        answers_given(start, events) == answers_given(start, events.take(request)),
        answers_given(start, events).len() <= requests_in(events.take(request)),
    decreases events.len(),
{
    requests_are_answered_or_wait(start, events.take(request));
    let before = events.drop_last();
    if request == events.len() - 1 {
        assert(events.take(request) =~= before);
    } else {
        assert(before.take(request) =~= events.take(request));
        assert forall|i: int| request <= i < before.len() implies (
        #[trigger] before[i]).is_request() by {
            assert(before[i] == events[i]);
        }
        batch_since_last_flush(start, before, request);
    }
    assert(events.last() == events[events.len() - 1]);
}

/// Every request gets exactly one answer: answers are given in the order in which the requests
/// came, one for each, and a request that was not answered yet still waits in the batch. The
/// answer is the outcome of the first flush that began after the request was taken in, so all
/// requests that wait for one flush are answered alike.
pub proof fn each_request_is_answered_once(
    start: Batching,
    events: Seq<WorkerEvent>,
    request: int,
    flush: int,
)
    requires
        start.batch.len() == 0,
        covers_request(events, request, flush),
    ensures
        answers_given(start, events).len() + after_events(start, events).batch.len()
            == requests_in(events),
        requests_in(events.take(request)) < answers_given(start, events).len(),
        events[flush] == WorkerEvent::Flushed(
            answers_given(start, events)[requests_in(events.take(request)) as int],
        ),
{
    requests_are_answered_or_wait(start, events);
    let before = events.take(flush);
    let upto = events.take(flush + 1);
    let at = requests_in(events.take(request));
    assert(upto.drop_last() =~= before);
    assert(upto.last() == events[flush]);
    assert(before.take(request) =~= events.take(request));
    assert forall|i: int| request <= i < before.len() implies (#[trigger] before[i]).is_request() by {
        assert(before[i] == events[i]);
    }
    batch_since_last_flush(start, before, request);
    requests_are_answered_or_wait(start, before);
    assert forall|k: int| request <= k < flush implies (#[trigger] events[k]).is_request() by {}
    requests_up_to(events, request, flush);
    let given = answers_given(start, upto);
    let n = answers_given(start, before).len();
    assert(n <= at < given.len());
    assert(WorkerEvent::Flushed(given[at as int]) == events[flush]);
    answers_only_grow(start, events, flush + 1);
    assert(answers_given(start, events)[at as int] == given[at as int]);
}

/// A request that no flush has followed yet has no answer: it waits in the batch.
pub proof fn an_unflushed_request_waits(start: Batching, events: Seq<WorkerEvent>, request: int)
    requires
        start.batch.len() == 0,
        0 <= request < events.len(),
        forall|i: int| request <= i < events.len() ==> (#[trigger] events[i]).is_request(),
    ensures
        answers_given(start, events).len() <= requests_in(events.take(request)),
        after_events(start, events).batch.len() >= events.len() - request,
{
    batch_since_last_flush(start, events, request);
    requests_are_answered_or_wait(start, events);
    requests_up_to(events, request, events.len() as int);
    assert(events.take(events.len() as int) =~= events);
}

/// A batch never waits past its linger time, whatever joins it: it is flushed at the first look
/// that comes that long after its first request.
pub proof fn batch_never_outwaits_linger(
    start: Batching,
    first: DurabilityClass,
    t0: u64,
    more: Seq<(DurabilityClass, u64)>,
    now_ms: u64,
)
    requires
        start.batch.len() == 0,
        t0 + start.linger_ms <= u64::MAX,
        now_ms >= t0 + start.linger_ms,
    ensures
        after_requests(start.with_request(first, t0), more).next_step(now_ms) == FlushStep::Flush,
    decreases more.len(),
{
    requests_keep_deadline(start.with_request(first, t0), more);
}

/// The coalescer after further requests.
pub open spec fn after_requests(c: Batching, more: Seq<(DurabilityClass, u64)>) -> Batching
    decreases more.len(),
{
    if more.len() == 0 {
        c
    } else {
        after_requests(c, more.drop_last()).with_request(more.last().0, more.last().1)
    }
}

proof fn requests_keep_deadline(c: Batching, more: Seq<(DurabilityClass, u64)>)
    requires
        c.batch.len() > 0,
    ensures
        after_requests(c, more).deadline_ms == c.deadline_ms,
        after_requests(c, more).batch.len() > 0,
    decreases more.len(),
{
    if more.len() > 0 {
        requests_keep_deadline(c, more.drop_last());
    }
}

/// Every request of a batch is of one class or the other.
pub proof fn classes_make_up_the_batch(batch: Seq<DurabilityClass>)
    ensures
        count_class(batch, DurabilityClass::Foreground) + count_class(
            batch,
            DurabilityClass::Background,
        ) == batch.len(),
    decreases batch.len(),
{
    if batch.len() > 0 {
        classes_make_up_the_batch(batch.drop_last());
    }
}

// ---------------------------------------------------------------------------
// Figures.
// ---------------------------------------------------------------------------

/// How much is stored.
#[derive(Clone, Copy, Debug)]
pub struct StorageStats {
    pub total_chunks: usize,
    pub total_bytes: u64,
}

/// The number of files that are not temporary.
pub open spec fn count_files(files: Seq<(String, Option<u64>)>) -> nat
    decreases files.len(),
{
    if files.len() == 0 {
        0
    } else {
        count_files(files.drop_last()) + if is_temp_name(encode_utf8(files.last().0@)) {
            0nat
        } else {
            1nat
        }
    }
}

/// The bytes in files that are not temporary and whose size is known.
pub open spec fn count_bytes(files: Seq<(String, Option<u64>)>) -> nat
    decreases files.len(),
{
    if files.len() == 0 {
        0
    } else {
        count_bytes(files.drop_last()) + if is_temp_name(encode_utf8(files.last().0@)) {
            0nat
        } else {
            match files.last().1 {
                Some(n) => n as nat,
                None => 0nat,
            }
        }
    }
}

proof fn count_files_bound(files: Seq<(String, Option<u64>)>, k: int)
    requires
        0 <= k <= files.len(),
    ensures
        count_files(files.take(k)) <= k,
        count_bytes(files.take(k)) <= count_bytes(files),
    decreases files.len() - k,
{
    if k == files.len() {
        assert(files.take(k) =~= files);
        count_files_at_most(files);
    } else {
        assert(files.take(k + 1).drop_last() =~= files.take(k));
        count_files_bound(files, k + 1);
        count_files_at_most(files.take(k));
    }
}

proof fn count_files_at_most(files: Seq<(String, Option<u64>)>)
    ensures
        count_files(files) <= files.len(),
    decreases files.len(),
{
    if files.len() > 0 {
        count_files_at_most(files.drop_last());
    }
}

/// Adds up the files of the chunk directories: name, and size where it is known.
pub fn count_chunks(files: &Vec<(String, Option<u64>)>) -> (r: StorageStats)
    requires
        count_bytes(files@) <= u64::MAX,
    ensures
        r.total_chunks == count_files(files@),
        r.total_bytes == count_bytes(files@),
{
    let mut total_chunks: usize = 0;
    let mut total_bytes: u64 = 0;
    let mut i: usize = 0;
    assert(files@.take(0) =~= Seq::<(String, Option<u64>)>::empty());
    while i < files.len()
        invariant
            i <= files@.len(),
            count_bytes(files@) <= u64::MAX,
            total_chunks <= i,
            total_chunks == count_files(files@.take(i as int)),
            total_bytes == count_bytes(files@.take(i as int)),
        decreases files@.len() - i,
    {
        proof {
            assert(files@.take(i + 1).drop_last() =~= files@.take(i as int));
            assert(files@.take(i + 1).last() == files@[i as int]);
            count_files_bound(files@, i + 1);
        }
        if !is_temp_name_exec(files[i].0.as_str()) {
            total_chunks += 1;
            match files[i].1 {
                Some(n) => {
                    total_bytes += n;
                },
                None => {},
            }
        }
        i += 1;
    }
    assert(files@.take(i as int) =~= files@);
    StorageStats { total_chunks, total_bytes }
}

/// The chunks that file names stand for, in the order of the names. Temporary files and names of
/// no chunk are passed over.
pub open spec fn chunks_named(names: Seq<String>) -> Seq<ChunkId>
    decreases names.len(),
{
    if names.len() == 0 {
        Seq::empty()
    } else {
        let sofar = chunks_named(names.drop_last());
        let bytes = encode_utf8(names.last()@);
        match named_chunk(bytes) {
            Some(c) => if is_temp_name(bytes) {
                sofar
            } else {
                sofar.push(c)
            },
            None => sofar,
        }
    }
}

/// Reads the chunks out of the names of the files in the chunk directories.
pub fn collect_chunks(names: &Vec<String>) -> (r: Vec<ChunkId>)
    ensures
        r@ == chunks_named(names@),
{
    let mut out: Vec<ChunkId> = Vec::new();
    let mut i: usize = 0;
    assert(names@.take(0) =~= Seq::<String>::empty());
    while i < names.len()
        invariant
            i <= names@.len(),
            out@ == chunks_named(names@.take(i as int)),
        decreases names@.len() - i,
    {
        proof {
            assert(names@.take(i + 1).drop_last() =~= names@.take(i as int));
            assert(names@.take(i + 1).last() == names@[i as int]);
        }
        let name: &str = names[i].as_str();
        if !is_temp_name_exec(name) {
            match chunk_id_from_filename(name) {
                Some(c) => {
                    out.push(c);
                },
                None => {},
            }
        }
        i += 1;
    }
    assert(names@.take(i as int) =~= names@);
    out
}

/// Total, free and available bytes of a file system, from its block counts.
pub fn get_filesystem_stats(blocks: u64, blocks_free: u64, blocks_available: u64, block_size: u64)
    -> (r: (u64, u64, u64))
    requires
        blocks * block_size <= u64::MAX,
        blocks_free * block_size <= u64::MAX,
        blocks_available * block_size <= u64::MAX,
    ensures
        r.0 == blocks * block_size,
        r.1 == blocks_free * block_size,
        r.2 == blocks_available * block_size,
{
    (blocks * block_size, blocks_free * block_size, blocks_available * block_size)
}

// ---------------------------------------------------------------------------
// Reading.
// ---------------------------------------------------------------------------

/// What is said of a request that starts behind the end of a chunk.
pub open spec fn beyond_text(offset: usize, len: usize) -> Seq<char> {
    "Offset "@ + decimal(offset as nat) + " beyond chunk size "@ + decimal(len as nat)
}

/// Where the part of a chunk of `len` bytes ends that a request for `length` bytes gets.
pub open spec fn range_end(len: usize, offset: usize, length: usize) -> int {
    if offset + length <= len {
        offset + length
    } else {
        len as int
    }
}

/// A request for a part of a chunk begins within it.
pub open spec fn begins_within(len: usize, offset: usize) -> bool {
    offset < len
}

/// The part of a chunk of `len` bytes that a request for `length` bytes at `offset` gets. A
/// request that starts behind the end is refused.
pub fn clamp_range(len: usize, offset: usize, length: usize) -> (r: Result<(usize, usize), String>)
    requires
        offset < len ==> offset + length <= usize::MAX,
    ensures
        offset >= len ==> r is Err && r->Err_0@ == beyond_text(offset, len),
        offset < len ==> r is Ok && r->Ok_0.0 == offset && r->Ok_0.1 == range_end(
            len,
            offset,
            length,
        ),
        r is Ok <==> begins_within(len, offset),
{
    if offset >= len {
        let mut text: String = join_number("Offset ", offset as u64, " beyond chunk size ");
        text.append(crate::text::decimal_text(len as u64).as_str());
        return Err(text);
    }
    let end: usize = if offset + length <= len {
        offset + length
    } else {
        len
    };
    Ok((offset, end))
}

/// Where the bytes of a chunk come from.
#[derive(Debug)]
pub enum ChunkSource {
    Cached(Arc<Vec<u8>>),
    /// They have to be read from disk.
    OnDisk,
}

/// Where a part of a chunk comes from.
#[derive(Debug)]
pub enum RangeSource {
    Cached(Vec<u8>),
    /// The chunk is cached, and ends before the part begins.
    Refused(String),
    /// It has to be read from its place on disk, as far as there is something.
    OnDisk,
}

/// A part of a chunk whose bytes are at hand, as its place in them.
pub fn read_chunk_range_arc(data: Arc<Vec<u8>>, offset: usize, length: usize) -> (r: Result<
    (Arc<Vec<u8>>, usize, usize),
    String,
>)
    requires
        offset < data@.len() ==> offset + length <= usize::MAX,
    ensures
        offset >= data@.len() ==> r is Err && r->Err_0@ == beyond_text(
            offset,
            data@.len() as usize,
        ),
        offset < data@.len() ==> r is Ok && (r->Ok_0).0 == data && (r->Ok_0).1 == offset && (
        r->Ok_0).2 == range_end(data@.len() as usize, offset, length),
        r is Ok <==> begins_within(data@.len() as usize, offset),
{
    match clamp_range(data.len(), offset, length) {
        Ok((start, end)) => Ok((data, start, end)),
        Err(why) => Err(why),
    }
}

fn copy_range(data: &Vec<u8>, start: usize, end: usize) -> (r: Vec<u8>)
    requires
        start <= end <= data@.len(),
    ensures
        r@ == data@.subrange(start as int, end as int),
{
    let mut out: Vec<u8> = Vec::new();
    let mut i: usize = start;
    while i < end
        invariant
            start <= i <= end <= data@.len(),
            out@ =~= data@.subrange(start as int, i as int),
        decreases end - i,
    {
        out.push(data[i]);
        i += 1;
    }
    out
}

/// A chunk that was written less than this many seconds ago is young: deleting it may lose data
/// that is still needed.
pub const YOUNG_CHUNK_WARN_SECS: u64 = 300;

/// How old a young chunk is.
pub open spec fn young_age(mtime: Option<u64>, now_secs: u64) -> Option<u64> {
    match mtime {
        Some(t) => {
            let age = if now_secs >= t {
                (now_secs - t) as u64
            } else {
                0u64
            };
            if age < YOUNG_CHUNK_WARN_SECS {
                Some(age)
            } else {
                None
            }
        },
        None => None,
    }
}

/// Whether a chunk of this modification time is young, and how old it is.
pub fn young_chunk_age(mtime: Option<u64>, now_secs: u64) -> (r: Option<u64>)
    ensures
        r == match mtime {
            Some(t) => {
                let age = if now_secs >= t {
                    (now_secs - t) as u64
                } else {
                    0u64
                };
                if age < YOUNG_CHUNK_WARN_SECS {
                    Some(age)
                } else {
                    None
                }
            },
            None => None,
        },
        r == young_age(mtime, now_secs),
{
    match mtime {
        Some(t) => {
            let age: u64 = if now_secs >= t {
                now_secs - t
            } else {
                0
            };
            if age < YOUNG_CHUNK_WARN_SECS {
                Some(age)
            } else {
                None
            }
        },
        None => None,
    }
}

/// What came of warming the cache with a chunk.
#[derive(Debug)]
pub enum Warmth {
    /// It was in the cache already.
    AlreadyWarm,
    /// It is not on disk.
    NotFound,
    /// It has to be read.
    ReadIt,
}

impl Warmth {
    /// Whether the chunk is loaded by this: not if it was in the cache already, nor if it does not
    /// exist.
    pub fn loaded(&self) -> (r: bool)
        ensures
            r == (*self is ReadIt),
    {
        match self {
            Warmth::ReadIt => true,
            Warmth::AlreadyWarm | Warmth::NotFound => false,
        }
    }
}

/// What changes the chunks on disk.
pub ghost enum DiskChange {
    Written(ChunkId),
    Deleted(ChunkId),
    /// The first chunk was rewritten, and is the second one now.
    Rewritten(ChunkId, ChunkId),
}

/// The chunks on disk after a change.
pub open spec fn on_disk_after(chunks: Set<ChunkId>, change: DiskChange) -> Set<ChunkId> {
    match change {
        DiskChange::Written(chunk) => chunks.insert(chunk),
        DiskChange::Deleted(chunk) => chunks.remove(chunk),
        DiskChange::Rewritten(old_chunk, new_chunk) => chunks.remove(old_chunk).insert(new_chunk),
    }
}

/// The index follows a change on disk, if it has been made.
pub open spec fn index_follows(
    before: Option<Seq<ChunkId>>,
    after: Option<Seq<ChunkId>>,
    change: DiskChange,
) -> bool {
    match before {
        Some(list) => after is Some && (after->0).to_set() == on_disk_after(list.to_set(), change),
        None => after is None,
    }
}

/// An index that lists what is on disk lists it after every change too: it is never stale.
pub proof fn the_index_is_never_stale(
    before: Option<Seq<ChunkId>>,
    after: Option<Seq<ChunkId>>,
    chunks: Set<ChunkId>,
    change: DiskChange,
)
    requires
        index_follows(before, after, change),
        before is Some ==> (before->0).to_set() == chunks,
    ensures
        after is Some <==> before is Some,
        after is Some ==> (after->0).to_set() == on_disk_after(chunks, change),
{
}

/// After a rewrite the listing has the new chunk in place of the old one, and every other chunk as
/// before.
pub proof fn a_rewrite_moves_the_listing(
    before: Seq<ChunkId>,
    after: Seq<ChunkId>,
    old_chunk: ChunkId,
    new_chunk: ChunkId,
)
    requires
        index_follows(Some(before), Some(after), DiskChange::Rewritten(old_chunk, new_chunk)),
    ensures
        after.contains(new_chunk),
        new_chunk != old_chunk ==> !after.contains(old_chunk),
        forall|c: ChunkId|
            c != old_chunk && c != new_chunk ==> (#[trigger] after.contains(c) <==> before.contains(
                c,
            )),
{
    let change = DiskChange::Rewritten(old_chunk, new_chunk);
    assert forall|c: ChunkId| #[trigger]
        after.contains(c) == on_disk_after(before.to_set(), change).contains(c) by {
        assert(after.to_set().contains(c) == after.contains(c));
    }
    assert forall|c: ChunkId| c != old_chunk && c != new_chunk implies (#[trigger] after.contains(c)
        <==> before.contains(c)) by {
        assert(before.to_set().contains(c) == before.contains(c));
    }
}

/// The part of the chunk storage that is kept in memory.
pub struct ChunkStorage {
    cache: ChunkCache,
    cache_capacity_chunks: usize,
    index: Option<ChunkIndex>,
    coalescing: bool,
    delete_reason_counts: DashMap<String, u64>,
}

/// What a chunk storage holds in memory.
pub ghost struct StorageState {
    pub cache: Cached,
    /// The chunks on disk in listing order, once they have been looked up.
    pub index: Option<Seq<ChunkId>>,
    pub coalescing: bool,
    /// How often a deletion was asked for, by reason.
    pub delete_reasons: Map<Seq<char>, u64>,
}

impl StorageState {
    pub open spec fn sound(self) -> bool {
        self.cache.sound() && (self.index is Some ==> ascending(self.index->0))
    }

    /// The bytes of the chunk in the cache.
    pub open spec fn cached(self, chunk: ChunkId) -> Option<Seq<u8>> {
        value_of(self.cache.entries, chunk.hash)
    }
}

impl View for ChunkStorage {
    type V = StorageState;

    closed spec fn view(&self) -> StorageState {
        StorageState {
            cache: self.cache@,
            index: match self.index {
                Some(i) => Some(i@),
                None => None,
            },
            coalescing: self.coalescing,
            delete_reasons: reason_entries(self.delete_reason_counts),
        }
    }
}

impl ChunkStorage {
    /// The sizes that the storage reports are those of its cache.
    pub closed spec fn capacity_kept(self) -> bool {
        self.cache_capacity_chunks == self.cache@.limit
    }

    /// A storage with an empty cache for so many chunks.
    pub fn new(cache_capacity_chunks: usize, coalescing: bool) -> (s: ChunkStorage)
        requires
            1 <= cache_capacity_chunks <= MAX_CACHE_ENTRIES,
        ensures
            s@.sound(),
            s.capacity_kept(),
            s@.cache.limit == cache_capacity_chunks,
            s@.cache.entries.len() == 0,
            s@.index is None,
            s@.coalescing == coalescing,
            s@.delete_reasons == Map::<Seq<char>, u64>::empty(),
    {
        ChunkStorage {
            cache: ChunkCache::new(cache_capacity_chunks),
            cache_capacity_chunks,
            index: None,
            coalescing,
            delete_reason_counts: reasons_new(),
        }
    }

    /// How often a deletion was asked for, by reason.
    pub fn delete_reason_counts_snapshot(&self) -> (r: Vec<(String, u64)>)
        ensures
            lists_reasons(self@.delete_reasons, r@),
    {
        reasons_list(&self.delete_reason_counts)
    }

    /// Whether writes share flushes.
    pub fn coalescing_enabled(&self) -> (r: bool)
        ensures
            r == self@.coalescing,
    {
        self.coalescing
    }

    /// Takes note that a chunk was written: it is listed from now on.
    pub fn write_chunk(&mut self, chunk_id: &ChunkId)
        requires
            old(self)@.sound(),
        ensures
            final(self)@.sound(),
            final(self)@.cache == old(self)@.cache,
            final(self)@.coalescing == old(self)@.coalescing,
            final(self)@.delete_reasons == old(self)@.delete_reasons,
            final(self).capacity_kept() == old(self).capacity_kept(),
            index_follows(old(self)@.index, final(self)@.index, DiskChange::Written(*chunk_id)),
    {
        let taken: Option<ChunkIndex> = self.index.take();
        match taken {
            Some(index) => {
                let mut index: ChunkIndex = index;
                index.insert(*chunk_id);
                self.index = Some(index);
            },
            None => {},
        }
    }

    /// The cached bytes of a chunk.
    pub fn read_chunk_cached_only(&mut self, chunk_id: &ChunkId) -> (r: Option<Arc<Vec<u8>>>)
        requires
            old(self)@.sound(),
        ensures
            final(self)@.sound(),
            final(self)@ == (StorageState {
                cache: Cached {
                    entries: touched(old(self)@.cache.entries, chunk_id.hash),
                    limit: old(self)@.cache.limit,
                },
                ..old(self)@
            }),
            final(self).capacity_kept() == old(self).capacity_kept(),
            match r {
                Some(v) => old(self)@.cached(*chunk_id) == Some((*v)@),
                None => old(self)@.cached(*chunk_id) is None,
            },
    {
        self.cache.get(chunk_id)
    }

    /// Begins to read a chunk: its bytes if they are cached, which counts as a use of them.
    /// Otherwise they are read from disk, and handed to `chunk_read`; meanwhile others can use the
    /// cache.
    pub fn read_chunk_arc(&mut self, chunk_id: &ChunkId) -> (r: ChunkSource)
        requires
            old(self)@.sound(),
        ensures
            final(self)@.sound(),
            final(self)@ == (StorageState {
                cache: Cached {
                    entries: touched(old(self)@.cache.entries, chunk_id.hash),
                    limit: old(self)@.cache.limit,
                },
                ..old(self)@
            }),
            final(self).capacity_kept() == old(self).capacity_kept(),
            match r {
                ChunkSource::Cached(v) => old(self)@.cached(*chunk_id) == Some((*v)@),
                ChunkSource::OnDisk => old(self)@.cached(*chunk_id) is None,
            },
    {
        match self.cache.get(chunk_id) {
            Some(v) => ChunkSource::Cached(v),
            None => ChunkSource::OnDisk,
        }
    }

    /// A chunk was read from disk: its bytes are cached and handed on. What could not be read
    /// leaves the cache as it is.
    pub fn chunk_read(&mut self, chunk_id: ChunkId, data: Result<Vec<u8>, String>) -> (r: Result<
        Arc<Vec<u8>>,
        String,
    >)
        requires
            old(self)@.sound(),
        ensures
            final(self)@.sound(),
            final(self).capacity_kept() == old(self).capacity_kept(),
            match data {
                Ok(bytes) => r is Ok && (*(r->Ok_0))@ == bytes@ && final(self)@.cached(chunk_id)
                    == Some(bytes@) && final(self)@ == (StorageState {
                    cache: Cached {
                        entries: stored(
                            old(self)@.cache.entries,
                            old(self)@.cache.limit,
                            chunk_id.hash,
                            bytes@,
                        ),
                        limit: old(self)@.cache.limit,
                    },
                    ..old(self)@
                }),
                Err(why) => r == Err::<Arc<Vec<u8>>, String>(why) && final(self)@ == old(self)@,
            },
    {
        match data {
            Ok(bytes) => {
                let shared: Arc<Vec<u8>> = Arc::new(bytes);
                self.cache_put(chunk_id, shared.clone());
                Ok(shared)
            },
            Err(why) => Err(why),
        }
    }

    /// Begins to read a part of a chunk. What is read from disk for it is not cached.
    pub fn read_chunk_range_partial(
        &mut self,
        chunk_id: &ChunkId,
        offset: usize,
        length: usize,
    ) -> (r: RangeSource)
        requires
            old(self)@.sound(),
            match old(self)@.cached(*chunk_id) {
                Some(bytes) => offset < bytes.len() ==> offset + length <= usize::MAX,
                None => true,
            },
        ensures
            final(self)@.sound(),
            final(self)@ == (StorageState {
                cache: Cached {
                    entries: touched(old(self)@.cache.entries, chunk_id.hash),
                    limit: old(self)@.cache.limit,
                },
                ..old(self)@
            }),
            final(self).capacity_kept() == old(self).capacity_kept(),
            match old(self)@.cached(*chunk_id) {
                Some(bytes) => if offset >= bytes.len() {
                    r is Refused && (r->Refused_0)@ == beyond_text(offset, bytes.len() as usize)
                } else {
                    r is Cached && (r->Cached_0)@ == bytes.subrange(
                        offset as int,
                        range_end(bytes.len() as usize, offset, length),
                    )
                },
                None => r is OnDisk,
            },
    {
        match self.cache.get(chunk_id) {
            Some(v) => match clamp_range(v.len(), offset, length) {
                Ok((start, end)) => RangeSource::Cached(copy_range(&v, start, end)),
                Err(why) => RangeSource::Refused(why),
            },
            None => RangeSource::OnDisk,
        }
    }

    /// Keeps a chunk's bytes in the cache.
    pub fn cache_put(&mut self, chunk_id: ChunkId, data: Arc<Vec<u8>>)
        requires
            old(self)@.sound(),
        ensures
            final(self)@.sound(),
            final(self)@ == (StorageState {
                cache: Cached {
                    entries: stored(
                        old(self)@.cache.entries,
                        old(self)@.cache.limit,
                        chunk_id.hash,
                        (*data)@,
                    ),
                    limit: old(self)@.cache.limit,
                },
                ..old(self)@
            }),
            final(self).capacity_kept() == old(self).capacity_kept(),
            final(self)@.cached(chunk_id) == Some((*data)@),
    {
        self.cache.put(chunk_id, data);
    }

    /// Forgets a chunk's cached bytes.
    pub fn invalidate_cache(&mut self, chunk_id: &ChunkId)
        requires
            old(self)@.sound(),
        ensures
            final(self)@.sound(),
            final(self)@ == (StorageState {
                cache: Cached {
                    entries: without(old(self)@.cache.entries, chunk_id.hash),
                    limit: old(self)@.cache.limit,
                },
                ..old(self)@
            }),
            final(self).capacity_kept() == old(self).capacity_kept(),
            final(self)@.cached(*chunk_id) is None,
    {
        self.cache.pop(chunk_id);
    }

    /// What to do to have a chunk in the cache. `on_disk` tells whether it is stored here.
    pub fn warm_cache(&self, chunk_id: &ChunkId, on_disk: bool) -> (r: Warmth)
        ensures
            self@.cached(*chunk_id) is Some ==> r is AlreadyWarm,
            self@.cached(*chunk_id) is None && !on_disk ==> r is NotFound,
            self@.cached(*chunk_id) is None && on_disk ==> r is ReadIt,
    {
        if self.cache.contains(chunk_id) {
            Warmth::AlreadyWarm
        } else if !on_disk {
            Warmth::NotFound
        } else {
            Warmth::ReadIt
        }
    }

    /// Whether a stored chunk is what its identity says, at its place in its file. Without a
    /// file there is nothing to check against. A chunk that could not be read is not valid.
    pub fn verify_chunk_at(
        chunk_id: &ChunkId,
        file_offset: u64,
        file_id: Option<FileId>,
        data: Option<&Vec<u8>>,
    ) -> (r: bool)
        ensures
            r == match file_id {
                Some(file) => match data {
                    Some(bytes) => content_digest_at(bytes@, file_offset, file) == chunk_id.hash,
                    None => false,
                },
                None => true,
            },
    {
        match file_id {
            Some(file) => match data {
                Some(bytes) => {
                    let digest: [u8; 32] = compute_chunk_hash_at(
                        bytes.as_slice(),
                        file_offset,
                        file,
                    );
                    ChunkId::from_hash(digest) == *chunk_id
                },
                None => false,
            },
            None => true,
        }
    }

    /// Counts a request to delete a chunk, whether or not the chunk is there.
    pub fn count_delete(&mut self, reason: &str)
        ensures
            final(self)@ == (StorageState {
                delete_reasons: counted(old(self)@.delete_reasons, reason@),
                ..old(self)@
            }),
            final(self).capacity_kept() == old(self).capacity_kept(),
    {
        let n: u64 = match reasons_get(&self.delete_reason_counts, reason) {
            Some(n) => n,
            None => 0,
        };
        reasons_insert(&mut self.delete_reason_counts, reason.to_owned(), n.wrapping_add(1));
    }

    /// Takes note that a chunk was deleted: its bytes are forgotten, and it is not listed any
    /// more.
    pub fn delete_chunk(&mut self, chunk_id: &ChunkId)
        requires
            old(self)@.sound(),
        ensures
            final(self)@.sound(),
            final(self)@.cache == (Cached {
                entries: without(old(self)@.cache.entries, chunk_id.hash),
                limit: old(self)@.cache.limit,
            }),
            final(self)@.cached(*chunk_id) is None,
            final(self)@.coalescing == old(self)@.coalescing,
            final(self)@.delete_reasons == old(self)@.delete_reasons,
            final(self).capacity_kept() == old(self).capacity_kept(),
            index_follows(old(self)@.index, final(self)@.index, DiskChange::Deleted(*chunk_id)),
    {
        self.cache.pop(chunk_id);
        let taken: Option<ChunkIndex> = self.index.take();
        match taken {
            Some(index) => {
                let mut index: ChunkIndex = index;
                index.remove(chunk_id);
                self.index = Some(index);
            },
            None => {},
        }
    }

    /// Takes note that a chunk was rewritten: what is cached of either identity is forgotten, and
    /// the new one is listed in place of the old one.
    pub fn chunk_rewritten(&mut self, old_chunk: &ChunkId, new_chunk: &ChunkId)
        requires
            old(self)@.sound(),
        ensures
            final(self)@.sound(),
            final(self)@.cache == (Cached {
                entries: without(
                    without(old(self)@.cache.entries, old_chunk.hash),
                    new_chunk.hash,
                ),
                limit: old(self)@.cache.limit,
            }),
            final(self)@.cached(*new_chunk) is None,
            final(self)@.coalescing == old(self)@.coalescing,
            final(self)@.delete_reasons == old(self)@.delete_reasons,
            final(self).capacity_kept() == old(self).capacity_kept(),
            index_follows(
                old(self)@.index,
                final(self)@.index,
                DiskChange::Rewritten(*old_chunk, *new_chunk),
            ),
    {
        self.cache.pop(old_chunk);
        self.cache.pop(new_chunk);
        let taken: Option<ChunkIndex> = self.index.take();
        match taken {
            Some(index) => {
                let mut index: ChunkIndex = index;
                index.remove(old_chunk);
                index.insert(*new_chunk);
                self.index = Some(index);
            },
            None => {},
        }
    }

    /// Whether the directories have yet to be looked through for chunks.
    pub fn needs_scan(&self) -> (r: bool)
        ensures
            r == (self@.index is None),
    {
        self.index.is_none()
    }

    /// Every chunk on disk. The first time, `scanned` holds what the directories were found to
    /// hold: that is what is listed, in that order, and the index is made from it. From then on
    /// the index is listed and `scanned` plays no part.
    pub fn list_chunks(&mut self, scanned: &Vec<ChunkId>) -> (r: Vec<ChunkId>)
        requires
            old(self)@.sound(),
        ensures
            final(self)@.sound(),
            final(self).capacity_kept() == old(self).capacity_kept(),
            match old(self)@.index {
                Some(list) => r@ == list && final(self)@ == old(self)@,
                None => r@ == scanned@ && final(self)@.index is Some && (
                final(self)@.index->0).to_set() == scanned@.to_set() && final(self)@ == (
                StorageState { index: final(self)@.index, ..old(self)@ }),
            },
    {
        match &self.index {
            Some(index) => {
                return index.list();
            },
            None => {},
        }
        self.index = Some(ChunkIndex::from_ids(scanned));
        scanned.clone()
    }

    /// Up to `limit` chunks that come strictly behind `after`, in listing order. Nothing means
    /// that the end is reached. The first time the index is made from `scanned`, as for a whole
    /// listing.
    pub fn list_chunks_page(
        &mut self,
        scanned: &Vec<ChunkId>,
        after: Option<ChunkId>,
        limit: usize,
    ) -> (r: Vec<ChunkId>)
        requires
            old(self)@.sound(),
        ensures
            final(self)@.sound(),
            final(self).capacity_kept() == old(self).capacity_kept(),
            final(self)@.index is Some,
            r@ == page_of(final(self)@.index->0, after, limit as nat),
            match old(self)@.index {
                Some(_) => final(self)@ == old(self)@,
                None => (final(self)@.index->0).to_set() == scanned@.to_set() && final(self)@ == (
                StorageState { index: final(self)@.index, ..old(self)@ }),
            },
    {
        match &self.index {
            Some(index) => {
                return index.page(after, limit);
            },
            None => {},
        }
        let index: ChunkIndex = ChunkIndex::from_ids(scanned);
        let page: Vec<ChunkId> = index.page(after, limit);
        self.index = Some(index);
        page
    }

    /// How many chunks the cache can hold, and how many it holds.
    pub fn get_cache_stats(&self) -> (r: (usize, usize))
        requires
            self.capacity_kept(),
        ensures
            r.0 == self@.cache.limit,
            r.1 == self@.cache.entries.len(),
    {
        (self.cache_capacity_chunks, self.cache.len())
    }
}

/// The counts after one more request for this reason. A count starts again from zero behind the
/// largest number.
pub open spec fn counted(counts: Map<Seq<char>, u64>, reason: Seq<char>) -> Map<Seq<char>, u64> {
    let n = if counts.dom().contains(reason) {
        counts[reason]
    } else {
        0
    };
    counts.insert(
        reason,
        if n < u64::MAX {
            (n + 1) as u64
        } else {
            0
        },
    )
}

} // verus!
