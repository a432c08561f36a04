//! The concurrency governor: a counter of currently executing jobs, bounded
//! by the configured parallelism limit.
//!
//! The dispatch loop reads it to compute free capacity and the process runner
//! moves it around the spawn/wait boundary. It is an explicit object owned by
//! the dispatcher instance, so several instances in one process do not
//! interfere.

use vstd::prelude::*;

verus! {

/// Counter of currently executing jobs, with the configured limit it must
/// never exceed.
#[derive(Debug)]
pub struct ConcurrencyGovernor {
    pub count: usize,
    pub limit: usize,
}

impl ConcurrencyGovernor {
    /// The governor's invariant: at every instant the count of running jobs
    /// is at most the configured concurrency limit.
    pub open spec fn wf(self) -> bool {
        self.count <= self.limit
    }

    /// A fresh governor with nothing running.
    pub fn new(limit: usize) -> (g: ConcurrencyGovernor)
        ensures
            g.wf(),
            g.count == 0,
            g.limit == limit,
    {
        ConcurrencyGovernor { count: 0, limit }
    }

    /// One more job is executing. Callers claim at most the free capacity,
    /// so the count stays within the limit.
    pub fn increment(&mut self)
        requires
            old(self).wf(),
            old(self).count < old(self).limit,
        ensures
            final(self).wf(),
            final(self).count == old(self).count + 1,
            final(self).limit == old(self).limit,
    {
        self.count = self.count + 1;
    }

    /// One job's process has terminated: its capacity is free again, even if
    /// its output is still being collected.
    pub fn decrement(&mut self)
        requires
            old(self).wf(),
            old(self).count > 0,
        ensures
            final(self).wf(),
            final(self).count == old(self).count - 1,
            final(self).limit == old(self).limit,
    {
        self.count = self.count - 1;
    }

    /// How many more jobs this instance may launch right now.
    pub fn free_capacity(&self) -> (c: usize)
        requires
            self.wf(),
        ensures
            c == self.limit - self.count,
    {
        self.limit - self.count
    }
}

} // verus!
