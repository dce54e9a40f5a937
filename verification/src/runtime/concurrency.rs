//! How many compaction jobs run, and how many ever ran at once.
use crate::num::max_64;
use crate::num::spec_max;
use vstd::prelude::*;

verus! {

/// Running compaction jobs.
#[derive(Debug, Clone, Copy, PartialEq, Eq, Structural)]
pub struct CompactionJobConcurrencyState {
    active_jobs: u64,
    peak_jobs: u64,
}

/// Proof that one job was counted. It has to be given back.
#[derive(Debug)]
pub struct CompactionJobSlot {
    pub counted: bool,
}

impl CompactionJobConcurrencyState {
    pub closed spec fn running(self) -> int {
        self.active_jobs as int
    }

    pub closed spec fn most(self) -> int {
        self.peak_jobs as int
    }

    /// The peak is never below what runs now.
    pub open spec fn wf(self) -> bool {
        0 <= self.running() <= self.most()
    }

    pub fn new() -> (r: Self)
        ensures
            r.wf(),
            r.running() == 0,
            r.most() == 0,
    {
        CompactionJobConcurrencyState { active_jobs: 0, peak_jobs: 0 }
    }

    /// Counts one more running job.
    pub fn start_job(&mut self) -> (slot: CompactionJobSlot)
        requires
            old(self).wf(),
            old(self).running() < u64::MAX,
        ensures
            final(self).wf(),
            final(self).running() == old(self).running() + 1,
            final(self).most() == spec_max(old(self).most(), final(self).running()),
            slot.counted,
    {
        self.active_jobs = self.active_jobs + 1;
        self.peak_jobs = max_64(self.peak_jobs, self.active_jobs);
        CompactionJobSlot { counted: true }
    }

    /// Gives a counted job back.
    pub fn finish_job(&mut self, slot: CompactionJobSlot)
        requires
            old(self).wf(),
            old(self).running() > 0,
        ensures
            final(self).wf(),
            final(self).running() == old(self).running() - if slot.counted {
                1int
            } else {
                0
            },
            final(self).most() == old(self).most(),
    {
        if slot.counted {
            self.active_jobs = self.active_jobs - 1;
        }
    }

    pub fn active(&self) -> (r: u64)
        ensures
            r == self.running(),
    {
        self.active_jobs
    }

    pub fn peak(&self) -> (r: u64)
        ensures
            r == self.most(),
    {
        self.peak_jobs
    }
}

} // verus!
