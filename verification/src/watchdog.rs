//! A deadline that ends the process when an operation does not finish in time.
use vstd::prelude::*;

verus! {

/// How often, at most, the watching thread looks whether the operation is done.
pub const LOOK_EVERY_MS: u64 = 250;

/// What the watching thread does next.
#[derive(Clone, Copy, Debug, PartialEq, Eq, Structural)]
pub enum Watch {
    /// The operation is done: stop watching.
    Disarmed,
    /// Sleep so many milliseconds, and look again.
    Sleep(u64),
    /// The deadline has passed: end the process.
    Expire,
}

/// A guard on one operation. Once it is done, the process is safe from it.
pub struct HardDeadline {
    deadline_ms: u64,
    tick_ms: u64,
    done: bool,
}

/// How long a watching thread sleeps between two looks.
pub open spec fn tick_for(limit_ms: u64) -> u64 {
    if limit_ms <= LOOK_EVERY_MS {
        limit_ms
    } else {
        LOOK_EVERY_MS
    }
}

/// What a watching thread does when it looks.
pub open spec fn seen(done: bool, deadline_ms: u64, tick_ms: u64, now_ms: u64) -> Watch {
    if done {
        Watch::Disarmed
    } else if now_ms >= deadline_ms {
        Watch::Expire
    } else {
        Watch::Sleep(tick_ms)
    }
}

impl HardDeadline {
    pub closed spec fn deadline(&self) -> u64 {
        self.deadline_ms
    }

    pub closed spec fn tick(&self) -> u64 {
        self.tick_ms
    }

    pub closed spec fn is_done(&self) -> bool {
        self.done
    }

    /// Starts watching an operation that has `limit_ms` to finish.
    pub fn arm(now_ms: u64, limit_ms: u64) -> (d: HardDeadline)
        requires
            now_ms + limit_ms <= u64::MAX,
        ensures
            d.deadline() == now_ms + limit_ms,
            d.tick() == (if limit_ms <= LOOK_EVERY_MS {
                limit_ms
            } else {
                LOOK_EVERY_MS
            }),
            !d.is_done(),
            d.tick() == tick_for(limit_ms),
    {
        let tick_ms: u64 = if limit_ms <= LOOK_EVERY_MS {
            limit_ms
        } else {
            LOOK_EVERY_MS
        };
        HardDeadline { deadline_ms: now_ms + limit_ms, tick_ms, done: false }
    }

    /// What the watching thread does when it looks at this time. An operation that is done is
    /// never held against its deadline, however late the look comes.
    pub fn look(&self, now_ms: u64) -> (w: Watch)
        ensures
            self.is_done() <==> w == Watch::Disarmed,
            !self.is_done() && now_ms >= self.deadline() ==> w == Watch::Expire,
            !self.is_done() && now_ms < self.deadline() ==> w == Watch::Sleep(self.tick()),
            w == seen(self.is_done(), self.deadline(), self.tick(), now_ms),
    {
        if self.done {
            Watch::Disarmed
        } else if now_ms >= self.deadline_ms {
            Watch::Expire
        } else {
            Watch::Sleep(self.tick_ms)
        }
    }

    /// The operation is done. There is no way back.
    pub fn disarm(&mut self)
        ensures
            final(self).is_done(),
            final(self).deadline() == old(self).deadline(),
            final(self).tick() == old(self).tick(),
    {
        self.done = true;
    }
}

} // verus!
