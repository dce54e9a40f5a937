//! Background maintenance as an observer sees it.
use super::cost::EngineCompactionCostSnapshot;
use super::cost::EngineCompactionCostState;
use super::operation::no_detail;
use super::operation::EngineRuntimeOperationSnapshot;
use super::operation::RuntimeOperationState;
use vstd::prelude::*;

verus! {

/// Milliseconds since the epoch, held to what 64 bits can say.
pub fn runtime_unix_millis(since_epoch_millis: u128) -> (r: u64)
    ensures
        r == if since_epoch_millis > u64::MAX {
            u64::MAX as int
        } else {
            since_epoch_millis as int
        },
{
    if since_epoch_millis > 0xffff_ffff_ffff_ffff {
        u64::MAX
    } else {
        since_epoch_millis as u64
    }
}

/// State of the background worker and of the three classes of maintenance.
#[derive(Debug)]
pub struct EngineMaintenanceState {
    pub background_worker_alive: bool,
    pub background_loop_epoch: u64,
    pub background_last_success_unix_millis: u64,
    pub seal: RuntimeOperationState,
    pub compaction: RuntimeOperationState,
    pub compaction_cost: EngineCompactionCostState,
    pub checkpoint: RuntimeOperationState,
}

/// The same at one moment.
#[derive(Debug)]
pub struct EngineMaintenanceSnapshot {
    pub background_worker_alive: bool,
    pub background_loop_epoch: u64,
    pub background_last_success_unix_millis: u64,
    pub seal: EngineRuntimeOperationSnapshot,
    pub compaction: EngineRuntimeOperationSnapshot,
    pub compaction_cost: EngineCompactionCostSnapshot,
    pub checkpoint: EngineRuntimeOperationSnapshot,
}

/// What a snapshot shows of one class.
pub open spec fn shows(
    shown: EngineRuntimeOperationSnapshot,
    state: RuntimeOperationState,
    now_unix_millis: u64,
) -> bool {
    &&& shown.counters == state.counters
    &&& shown.elapsed_millis == if state.counters.active {
        crate::num::monus(now_unix_millis as int, state.counters.started_unix_millis as int)
    } else {
        0
    }
    &&& shown.detail@ == state.detail@
}

/// No class has run.
pub open spec fn is_idle(state: RuntimeOperationState) -> bool {
    &&& !state.counters.active
    &&& state.counters.calls == 0
    &&& state.counters.epoch == 0
    &&& state.detail@ == no_detail()
}

impl EngineMaintenanceState {
    pub fn new() -> (r: Self)
        ensures
            !r.background_worker_alive,
            r.background_loop_epoch == 0,
            r.background_last_success_unix_millis == 0,
            is_idle(r.seal),
            is_idle(r.compaction),
            is_idle(r.checkpoint),
            r.compaction_cost.counts == super::cost::zero_counts(),
    {
        EngineMaintenanceState {
            background_worker_alive: false,
            background_loop_epoch: 0,
            background_last_success_unix_millis: 0,
            seal: RuntimeOperationState::new(),
            compaction: RuntimeOperationState::new(),
            compaction_cost: EngineCompactionCostState::new(),
            checkpoint: RuntimeOperationState::new(),
        }
    }

    pub fn snapshot(&self, now_unix_millis: u64) -> (r: EngineMaintenanceSnapshot)
        ensures
            r.background_worker_alive == self.background_worker_alive,
            r.background_loop_epoch == self.background_loop_epoch,
            r.background_last_success_unix_millis == self.background_last_success_unix_millis,
            shows(r.seal, self.seal, now_unix_millis),
            shows(r.compaction, self.compaction, now_unix_millis),
            r.compaction_cost.counts() == self.compaction_cost.counts,
            r.compaction_cost.reasons() == self.compaction_cost.reasons(),
            shows(r.checkpoint, self.checkpoint, now_unix_millis),
    {
        EngineMaintenanceSnapshot {
            background_worker_alive: self.background_worker_alive,
            background_loop_epoch: self.background_loop_epoch,
            background_last_success_unix_millis: self.background_last_success_unix_millis,
            seal: self.seal.snapshot(now_unix_millis),
            compaction: self.compaction.snapshot(now_unix_millis),
            compaction_cost: self.compaction_cost.snapshot(),
            checkpoint: self.checkpoint.snapshot(now_unix_millis),
        }
    }

    /// Notes that the background loop came round.
    pub fn record_background_success(&mut self, now_unix_millis: u64)
        ensures
            *final(self) == (EngineMaintenanceState {
                background_last_success_unix_millis: now_unix_millis,
                ..*old(self)
            }),
    {
        self.background_last_success_unix_millis = now_unix_millis;
    }

    /// The worker is gone, however it ended.
    pub fn worker_stopped(&mut self)
        ensures
            *final(self) == (EngineMaintenanceState {
                background_worker_alive: false,
                ..*old(self)
            }),
    {
        self.background_worker_alive = false;
    }
}

} // verus!
