//! Operation counters: what the node does each second, and over the last hour.
use vstd::prelude::*;

verus! {

/// Seconds that are remembered.
pub const RING_LEN: usize = 3600;

/// What was counted in one second.
pub ghost struct Second {
    pub reads: u64,
    pub writes: u64,
    pub meta: u64,
}

/// The last seconds that were counted, in a ring.
pub struct RingBuffer {
    reads: Vec<u64>,
    writes: Vec<u64>,
    meta: Vec<u64>,
    head: usize,
    filled: usize,
}

impl RingBuffer {
    pub closed spec fn wf(&self) -> bool {
        &&& self.reads@.len() == RING_LEN
        &&& self.writes@.len() == RING_LEN
        &&& self.meta@.len() == RING_LEN
        &&& self.head < RING_LEN
        &&& self.filled <= RING_LEN
    }

    /// The place in the ring of the second that ended `ago` seconds before the last one.
    spec fn place(&self, ago: int) -> int {
        (self.head + 2 * RING_LEN - 1 - ago) % (RING_LEN as int)
    }

    /// The remembered seconds, the last one first.
    pub closed spec fn recent(&self) -> Seq<Second> {
        Seq::new(
            self.filled as nat,
            |ago: int|
                Second {
                    reads: self.reads@[self.place(ago)],
                    writes: self.writes@[self.place(ago)],
                    meta: self.meta@[self.place(ago)],
                },
        )
    }

    pub fn new() -> (r: RingBuffer)
        ensures
            r.wf(),
            r.recent().len() == 0,
    {
        RingBuffer {
            reads: vec![0u64; RING_LEN],
            writes: vec![0u64; RING_LEN],
            meta: vec![0u64; RING_LEN],
            head: 0,
            filled: 0,
        }
    }

    /// Remembers one more second. When the ring is full, the oldest is forgotten.
    fn push(&mut self, reads: u64, writes: u64, meta: u64)
        requires
            old(self).wf(),
        ensures
            final(self).wf(),
            final(self).recent() == remembered(old(self).recent(), Second { reads, writes, meta }),
    {
        let h: usize = self.head;
        self.reads.set(h, reads);
        self.writes.set(h, writes);
        self.meta.set(h, meta);
        self.head = (h + 1) % RING_LEN;
        if self.filled < RING_LEN {
            self.filled = self.filled + 1;
        }
        proof {
            let new = Second { reads, writes, meta };
            let want = remembered(old(self).recent(), new);
            assert forall|ago: int| 0 <= ago < self.filled implies self.recent()[ago]
                == want[ago] by {
                let p = self.place(ago);
                if ago == 0 {
                    assert(p == h);
                } else {
                    assert(p == old(self).place(ago - 1));
                    assert(p != h);
                }
            }
            assert(self.recent() =~= want);
        }
    }
}

/// The remembered seconds after one more.
pub open spec fn remembered(recent: Seq<Second>, new: Second) -> Seq<Second> {
    seq![new] + if recent.len() == RING_LEN {
        recent.drop_last()
    } else {
        recent
    }
}

pub open spec fn sum_reads(s: Seq<Second>) -> nat
    decreases s.len(),
{
    if s.len() == 0 {
        0
    } else {
        sum_reads(s.drop_last()) + s.last().reads as nat
    }
}

pub open spec fn sum_writes(s: Seq<Second>) -> nat
    decreases s.len(),
{
    if s.len() == 0 {
        0
    } else {
        sum_writes(s.drop_last()) + s.last().writes as nat
    }
}

pub open spec fn sum_meta(s: Seq<Second>) -> nat
    decreases s.len(),
{
    if s.len() == 0 {
        0
    } else {
        sum_meta(s.drop_last()) + s.last().meta as nat
    }
}

pub open spec fn larger(a: nat, b: nat) -> nat {
    if a >= b {
        a
    } else {
        b
    }
}

pub open spec fn peak_reads(s: Seq<Second>) -> nat
    decreases s.len(),
{
    if s.len() == 0 {
        0
    } else {
        larger(peak_reads(s.drop_last()), s.last().reads as nat)
    }
}

pub open spec fn peak_writes(s: Seq<Second>) -> nat
    decreases s.len(),
{
    if s.len() == 0 {
        0
    } else {
        larger(peak_writes(s.drop_last()), s.last().writes as nat)
    }
}

pub open spec fn peak_meta(s: Seq<Second>) -> nat
    decreases s.len(),
{
    if s.len() == 0 {
        0
    } else {
        larger(peak_meta(s.drop_last()), s.last().meta as nat)
    }
}

/// The most operations of all kinds in one second.
pub open spec fn peak_total(s: Seq<Second>) -> nat
    decreases s.len(),
{
    if s.len() == 0 {
        0
    } else {
        larger(
            peak_total(s.drop_last()),
            s.last().reads as nat + s.last().writes as nat + s.last().meta as nat,
        )
    }
}

/// In none of these seconds do the operations of all kinds add up to more than 64 bits hold.
pub open spec fn totals_fit(s: Seq<Second>) -> bool {
    forall|i: int|
        0 <= i < s.len() ==> (#[trigger] s[i]).reads + s[i].writes + s[i].meta <= u64::MAX
}

/// The figures of a node at one moment.
#[derive(Clone, Copy, Debug, PartialEq, Eq, Structural)]
pub struct NodeStatsSnapshot {
    pub reads_live: u64,
    pub writes_live: u64,
    pub meta_live: u64,
    pub reads_peak_1h: u64,
    pub writes_peak_1h: u64,
    pub meta_peak_1h: u64,
    pub total_peak_1h: u64,
    pub reads_avg_1h: u64,
    pub writes_avg_1h: u64,
    pub meta_avg_1h: u64,
    pub uptime_secs: u64,
    pub active_connections: u64,
    pub max_connections: u64,
}

/// The figures are right: of the last full second, or of the running one while there is none;
/// peaks and whole averages over the remembered seconds.
pub open spec fn is_snapshot(
    snap: NodeStatsSnapshot,
    running: Second,
    recent: Seq<Second>,
    uptime_secs: u64,
) -> bool {
    &&& snap.uptime_secs == uptime_secs
    &&& snap.active_connections == 0
    &&& snap.max_connections == 0
    &&& if recent.len() == 0 {
        &&& snap.reads_live == running.reads
        &&& snap.writes_live == running.writes
        &&& snap.meta_live == running.meta
        &&& snap.reads_peak_1h == 0
        &&& snap.writes_peak_1h == 0
        &&& snap.meta_peak_1h == 0
        &&& snap.total_peak_1h == 0
        &&& snap.reads_avg_1h == 0
        &&& snap.writes_avg_1h == 0
        &&& snap.meta_avg_1h == 0
    } else {
        &&& snap.reads_live == recent[0].reads
        &&& snap.writes_live == recent[0].writes
        &&& snap.meta_live == recent[0].meta
        &&& snap.reads_peak_1h == peak_reads(recent)
        &&& snap.writes_peak_1h == peak_writes(recent)
        &&& snap.meta_peak_1h == peak_meta(recent)
        &&& snap.total_peak_1h == peak_total(recent)
        &&& snap.reads_avg_1h == sum_reads(recent) / recent.len()
        &&& snap.writes_avg_1h == sum_writes(recent) / recent.len()
        &&& snap.meta_avg_1h == sum_meta(recent) / recent.len()
    }
}

/// Counts operations, second by second.
pub struct OpsTracker {
    reads: u64,
    writes: u64,
    meta: u64,
    ring: RingBuffer,
}

/// A counter after one more. Behind the largest number it starts again from zero.
pub open spec fn bumped(n: u64) -> u64 {
    if n < u64::MAX {
        (n + 1) as u64
    } else {
        0
    }
}

impl OpsTracker {
    pub closed spec fn wf(&self) -> bool {
        self.ring.wf()
    }

    /// What was counted in the running second.
    pub closed spec fn running(&self) -> Second {
        Second { reads: self.reads, writes: self.writes, meta: self.meta }
    }

    /// The remembered seconds, the last one first.
    pub closed spec fn recent(&self) -> Seq<Second> {
        self.ring.recent()
    }

    pub fn new() -> (t: OpsTracker)
        ensures
            t.wf(),
            t.running() == (Second { reads: 0, writes: 0, meta: 0 }),
            t.recent().len() == 0,
    {
        OpsTracker { reads: 0, writes: 0, meta: 0, ring: RingBuffer::new() }
    }

    pub fn inc_read(&mut self)
        requires
            old(self).wf(),
        ensures
            final(self).wf(),
            final(self).running() == (Second {
                reads: bumped(old(self).running().reads),
                ..old(self).running()
            }),
            final(self).recent() == old(self).recent(),
    {
        self.reads = self.reads.wrapping_add(1);
    }

    pub fn inc_write(&mut self)
        requires
            old(self).wf(),
        ensures
            final(self).wf(),
            final(self).running() == (Second {
                writes: bumped(old(self).running().writes),
                ..old(self).running()
            }),
            final(self).recent() == old(self).recent(),
    {
        self.writes = self.writes.wrapping_add(1);
    }

    pub fn inc_meta(&mut self)
        requires
            old(self).wf(),
        ensures
            final(self).wf(),
            final(self).running() == (Second {
                meta: bumped(old(self).running().meta),
                ..old(self).running()
            }),
            final(self).recent() == old(self).recent(),
    {
        self.meta = self.meta.wrapping_add(1);
    }

    /// Ends the running second: what it counted is remembered, and counting starts from zero.
    pub fn tick(&mut self)
        requires
            old(self).wf(),
        ensures
            final(self).wf(),
            final(self).running() == (Second { reads: 0, writes: 0, meta: 0 }),
            final(self).recent() == remembered(old(self).recent(), old(self).running()),
    {
        let reads: u64 = self.reads;
        let writes: u64 = self.writes;
        let meta: u64 = self.meta;
        self.reads = 0;
        self.writes = 0;
        self.meta = 0;
        self.ring.push(reads, writes, meta);
    }

    /// Whether the operations of every remembered second can be added up.
    pub fn totals_fit(&self) -> (r: bool)
        requires
            self.wf(),
        ensures
            r == totals_fit(self.recent()),
    {
        let ghost recent = self.recent();
        let filled: usize = self.ring.filled;
        let mut i: usize = 0;
        while i < filled
            invariant
                i <= filled,
                self.ring.wf(),
                filled == self.ring.filled,
                recent == self.ring.recent(),
                recent.len() == filled,
                forall|j: int|
                    0 <= j < i ==> (#[trigger] recent[j]).reads + recent[j].writes + recent[j].meta
                        <= u64::MAX,
            decreases filled - i,
        {
            let p: usize = (self.ring.head + 2 * RING_LEN - 1 - i) % RING_LEN;
            assert(p == self.ring.place(i as int));
            let r: u64 = self.ring.reads[p];
            let w: u64 = self.ring.writes[p];
            let m: u64 = self.ring.meta[p];
            assert(recent[i as int] == (Second { reads: r, writes: w, meta: m }));
            if r as u128 + w as u128 + m as u128 > u64::MAX as u128 {
                return false;
            }
            i += 1;
        }
        true
    }

    /// The figures at this moment. The number of connections is for others to fill in.
    pub fn get_stats(&self, uptime_secs: u64) -> (snap: NodeStatsSnapshot)
        requires
            self.wf(),
            totals_fit(self.recent()),
        ensures
            is_snapshot(snap, self.running(), self.recent(), uptime_secs),
    {
        let filled: usize = self.ring.filled;
        if filled == 0 {
            return NodeStatsSnapshot {
                reads_live: self.reads,
                writes_live: self.writes,
                meta_live: self.meta,
                reads_peak_1h: 0,
                writes_peak_1h: 0,
                meta_peak_1h: 0,
                total_peak_1h: 0,
                reads_avg_1h: 0,
                writes_avg_1h: 0,
                meta_avg_1h: 0,
                uptime_secs,
                active_connections: 0,
                max_connections: 0,
            };
        }
        let ghost recent = self.recent();
        let last: usize = (self.ring.head + RING_LEN - 1) % RING_LEN;
        assert(last == self.ring.place(0));
        let mut r_sum: u128 = 0;
        let mut w_sum: u128 = 0;
        let mut m_sum: u128 = 0;
        let mut r_peak: u64 = 0;
        let mut w_peak: u64 = 0;
        let mut m_peak: u64 = 0;
        let mut t_peak: u64 = 0;
        let mut i: usize = 0;
        assert(recent.take(0) =~= Seq::<Second>::empty());
        while i < filled
            invariant
                i <= filled,
                self.ring.wf(),
                filled == self.ring.filled,
                recent == self.ring.recent(),
                recent.len() == filled,
                totals_fit(recent),
                r_sum <= i * u64::MAX,
                w_sum <= i * u64::MAX,
                m_sum <= i * u64::MAX,
                r_sum == sum_reads(recent.take(i as int)),
                w_sum == sum_writes(recent.take(i as int)),
                m_sum == sum_meta(recent.take(i as int)),
                r_peak == peak_reads(recent.take(i as int)),
                w_peak == peak_writes(recent.take(i as int)),
                m_peak == peak_meta(recent.take(i as int)),
                t_peak == peak_total(recent.take(i as int)),
            decreases filled - i,
        {
            let p: usize = (self.ring.head + 2 * RING_LEN - 1 - i) % RING_LEN;
            assert(p == self.ring.place(i as int));
            let r: u64 = self.ring.reads[p];
            let w: u64 = self.ring.writes[p];
            let m: u64 = self.ring.meta[p];
            proof {
                assert(recent[i as int] == (Second { reads: r, writes: w, meta: m }));
                assert(recent.take(i + 1).drop_last() =~= recent.take(i as int));
                assert(recent.take(i + 1).last() == recent[i as int]);
                assert((i + 1) * u64::MAX == i * u64::MAX + u64::MAX) by (nonlinear_arith);
                assert(i * u64::MAX <= 3600 * u64::MAX) by (nonlinear_arith)
                    requires
                        i <= 3600,
                ;
            }
            r_sum = r_sum + r as u128;
            w_sum = w_sum + w as u128;
            m_sum = m_sum + m as u128;
            if r > r_peak {
                r_peak = r;
            }
            if w > w_peak {
                w_peak = w;
            }
            if m > m_peak {
                m_peak = m;
            }
            let total: u64 = r + w + m;
            if total > t_peak {
                t_peak = total;
            }
            i += 1;
        }
        assert(recent.take(i as int) =~= recent);
        let n: u128 = filled as u128;
        proof {
            average_fits(r_sum as int, n as int);
            average_fits(w_sum as int, n as int);
            average_fits(m_sum as int, n as int);
        }
        NodeStatsSnapshot {
            reads_live: self.ring.reads[last],
            writes_live: self.ring.writes[last],
            meta_live: self.ring.meta[last],
            reads_peak_1h: r_peak,
            writes_peak_1h: w_peak,
            meta_peak_1h: m_peak,
            total_peak_1h: t_peak,
            reads_avg_1h: (r_sum / n) as u64,
            writes_avg_1h: (w_sum / n) as u64,
            meta_avg_1h: (m_sum / n) as u64,
            uptime_secs,
            active_connections: 0,
            max_connections: 0,
        }
    }
}

proof fn average_fits(sum: int, n: int)
    requires
        0 < n,
        0 <= sum <= n * u64::MAX,
    ensures
        0 <= sum / n <= u64::MAX,
{
    assert(sum / n <= u64::MAX) by (nonlinear_arith)
        requires
            0 < n,
            0 <= sum <= n * u64::MAX,
    ;
    assert(0 <= sum / n) by (nonlinear_arith)
        requires
            0 < n,
            0 <= sum,
    ;
}

/// The largest of the remembered figures is reached, and no second goes past it. The most of one
/// kind is at most the most of all kinds.
pub proof fn peaks_are_peaks(s: Seq<Second>)
    ensures
        forall|i: int|
            0 <= i < s.len() ==> (#[trigger] s[i]).reads <= peak_reads(s) && s[i].writes
                <= peak_writes(s) && s[i].meta <= peak_meta(s) && s[i].reads + s[i].writes
                + s[i].meta <= peak_total(s),
        s.len() > 0 ==> exists|i: int|
            0 <= i < s.len() && (#[trigger] s[i]).reads + s[i].writes + s[i].meta == peak_total(s),
        peak_reads(s) <= peak_total(s),
        peak_writes(s) <= peak_total(s),
        peak_meta(s) <= peak_total(s),
    decreases s.len(),
{
    if s.len() > 0 {
        let init = s.drop_last();
        peaks_are_peaks(init);
        assert forall|i: int| 0 <= i < s.len() implies (#[trigger] s[i]).reads <= peak_reads(s)
            && s[i].writes <= peak_writes(s) && s[i].meta <= peak_meta(s) && s[i].reads
            + s[i].writes + s[i].meta <= peak_total(s) by {
            if i < init.len() {
                assert(init[i] == s[i]);
            }
        }
        let last = s[s.len() - 1];
        if last.reads + last.writes + last.meta != peak_total(s) {
            let i = choose|i: int|
                0 <= i < init.len() && (#[trigger] init[i]).reads + init[i].writes + init[i].meta
                    == peak_total(init);
            assert(s[i] == init[i]);
        } else {
            assert(s[s.len() - 1].reads + s[s.len() - 1].writes + s[s.len() - 1].meta
                == peak_total(s));
        }
    }
}

/// No more than an hour is ever remembered.
pub proof fn ring_never_outgrows_an_hour(recent: Seq<Second>, new: Second)
    requires
        recent.len() <= RING_LEN,
    ensures
        remembered(recent, new).len() <= RING_LEN,
        remembered(recent, new)[0] == new,
{
}

/// Who sent a request, and what for.
#[derive(Clone, Copy, Debug, PartialEq, Eq, Structural)]
pub enum RpcClass {
    PeerHealing,
    PeerDeleteOps,
    PeerFold,
    PeerGossip,
    PeerOther,
    ClientFullPatch,
    ClientMultiPatch,
    ClientFold,
    ClientOther,
    Admin,
}

/// Requests by class since startup.
pub struct RpcClassCounts {
    counts: RpcClassSnapshot,
}

/// Requests by class at one moment.
#[derive(Clone, Copy, Debug, PartialEq, Eq, Structural)]
pub struct RpcClassSnapshot {
    pub peer_healing: u64,
    pub peer_delete_ops: u64,
    pub peer_fold: u64,
    pub peer_gossip: u64,
    pub peer_other: u64,
    pub client_full_patch: u64,
    pub client_multi_patch: u64,
    pub client_fold: u64,
    pub client_other: u64,
    pub admin: u64,
}

impl RpcClassSnapshot {
    /// The count of one class.
    pub open spec fn of(self, class: RpcClass) -> u64 {
        match class {
            RpcClass::PeerHealing => self.peer_healing,
            RpcClass::PeerDeleteOps => self.peer_delete_ops,
            RpcClass::PeerFold => self.peer_fold,
            RpcClass::PeerGossip => self.peer_gossip,
            RpcClass::PeerOther => self.peer_other,
            RpcClass::ClientFullPatch => self.client_full_patch,
            RpcClass::ClientMultiPatch => self.client_multi_patch,
            RpcClass::ClientFold => self.client_fold,
            RpcClass::ClientOther => self.client_other,
            RpcClass::Admin => self.admin,
        }
    }
}

impl Default for RpcClassSnapshot {
    fn default() -> (r: RpcClassSnapshot)
        ensures
            forall|c: RpcClass| r.of(c) == 0,
    {
        RpcClassSnapshot {
            peer_healing: 0,
            peer_delete_ops: 0,
            peer_fold: 0,
            peer_gossip: 0,
            peer_other: 0,
            client_full_patch: 0,
            client_multi_patch: 0,
            client_fold: 0,
            client_other: 0,
            admin: 0,
        }
    }
}

impl View for RpcClassCounts {
    type V = RpcClassSnapshot;

    closed spec fn view(&self) -> RpcClassSnapshot {
        self.counts
    }
}

impl RpcClassCounts {
    pub fn new() -> (r: RpcClassCounts)
        ensures
            forall|c: RpcClass| r@.of(c) == 0,
    {
        RpcClassCounts { counts: RpcClassSnapshot::default() }
    }

    /// Counts one request of a class; the counts of the other classes stay.
    pub fn record(&mut self, class: RpcClass)
        ensures
            forall|c: RpcClass|
                final(self)@.of(c) == (if c == class {
                    bumped(old(self)@.of(c))
                } else {
                    old(self)@.of(c)
                }),
    {
        match class {
            RpcClass::PeerHealing => {
                self.counts.peer_healing = self.counts.peer_healing.wrapping_add(1);
            },
            RpcClass::PeerDeleteOps => {
                self.counts.peer_delete_ops = self.counts.peer_delete_ops.wrapping_add(1);
            },
            RpcClass::PeerFold => {
                self.counts.peer_fold = self.counts.peer_fold.wrapping_add(1);
            },
            RpcClass::PeerGossip => {
                self.counts.peer_gossip = self.counts.peer_gossip.wrapping_add(1);
            },
            RpcClass::PeerOther => {
                self.counts.peer_other = self.counts.peer_other.wrapping_add(1);
            },
            RpcClass::ClientFullPatch => {
                self.counts.client_full_patch = self.counts.client_full_patch.wrapping_add(1);
            },
            RpcClass::ClientMultiPatch => {
                self.counts.client_multi_patch = self.counts.client_multi_patch.wrapping_add(1);
            },
            RpcClass::ClientFold => {
                self.counts.client_fold = self.counts.client_fold.wrapping_add(1);
            },
            RpcClass::ClientOther => {
                self.counts.client_other = self.counts.client_other.wrapping_add(1);
            },
            RpcClass::Admin => {
                self.counts.admin = self.counts.admin.wrapping_add(1);
            },
        }
    }

    /// The counts at this moment.
    pub fn snapshot(&self) -> (r: RpcClassSnapshot)
        ensures
            r == self@,
    {
        self.counts
    }
}

} // verus!
