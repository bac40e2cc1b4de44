use vstd::prelude::*;
use crate::store::{sweep_model, evict_model, RedirectTable};

verus! {

/// Deletes every expired row, once per `interval` seconds. The perpetual
/// timer loop lives with the task runtime; one pass is `run`. By design
/// a failure around one pass (say, reading the clock) is logged by the
/// surrounding task and the loop goes on to the next interval, so a
/// transient fault never kills the sweeper.
pub struct ExpirationCleaner {
    /// Seconds between two sweep passes.
    pub interval: u64,
}

impl ExpirationCleaner {
    /// One sweep pass: every row with `expires_at <= now` goes away.
    pub fn run(&self, table: &mut RedirectTable, now: u64)
        requires
            old(table).wf(),
        ensures
            final(table).wf(),
            final(table)@ == sweep_model(old(table)@, now),
    {
        table.sweep(now);
    }
}

/// Deletes the oldest rows after an insert until the configured bound
/// holds again; a no-op when the table is already within bound.
#[derive(Clone, Copy)]
pub struct ExcessCleaner {
    /// Upper bound on the number of stored rows.
    pub limit: u64,
}

impl ExcessCleaner {
    /// One eviction pass, oldest rows first.
    pub fn run(&self, table: &mut RedirectTable)
        requires
            old(table).wf(),
        ensures
            final(table).wf(),
            final(table)@ == evict_model(old(table)@, self.limit),
    {
        table.evict(self.limit);
    }
}

} // verus!
