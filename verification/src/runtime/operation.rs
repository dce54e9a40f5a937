//! Progress of one class of maintenance operation.
use crate::identity::fnv1a;
use crate::identity::runtime_owner_id;
use crate::num::min_size;
use crate::num::monus;
use crate::num::spec_min;
use crate::sort::is_permutation;
use crate::sort::is_sorted;
use crate::sort::sorted;
use crate::text::clip;
use crate::text::clipped;
use vstd::prelude::*;
use vstd::string::StringSliceAdditionalSpecFns;

verus! {

/// Segment identities that a snapshot shows at most.
pub const RUNTIME_STATS_MAX_ACTIVE_SEGMENT_IDS: usize = 64;

/// Characters of a reason that a snapshot shows.
pub const DETAIL_REASON_CHARS: usize = 64;

/// Bounded identity of what an operation touches. Tables appear by number,
/// never by name.
#[derive(Debug)]
pub struct EngineRuntimeOperationDetail {
    pub table_id: Option<u64>,
    pub segment_ids: Vec<u64>,
    pub segment_ids_truncated: bool,
    pub reason: String,
}

/// Content of a detail.
pub struct DetailView {
    pub table_id: Option<u64>,
    pub segment_ids: Seq<u64>,
    pub segment_ids_truncated: bool,
    pub reason: Seq<char>,
}

impl View for EngineRuntimeOperationDetail {
    type V = DetailView;

    open spec fn view(&self) -> DetailView {
        DetailView {
            table_id: self.table_id,
            segment_ids: self.segment_ids@,
            segment_ids_truncated: self.segment_ids_truncated,
            reason: self.reason@,
        }
    }
}

pub open spec fn no_detail() -> DetailView {
    DetailView {
        table_id: None,
        segment_ids: Seq::empty(),
        segment_ids_truncated: false,
        reason: Seq::empty(),
    }
}

impl EngineRuntimeOperationDetail {
    /// Nothing touched yet.
    pub fn none() -> (r: Self)
        ensures
            r@ == no_detail(),
    {
        EngineRuntimeOperationDetail {
            table_id: None,
            segment_ids: Vec::new(),
            segment_ids_truncated: false,
            reason: String::new(),
        }
    }

    /// An equal detail of its own.
    pub fn duplicate(&self) -> (r: Self)
        ensures
            r@ == self@,
    {
        let mut segment_ids: Vec<u64> = Vec::new();
        let mut i: usize = 0;
        while i < self.segment_ids.len()
            invariant
                0 <= i <= self.segment_ids@.len(),
                segment_ids@ == self.segment_ids@.take(i as int),
            decreases self.segment_ids@.len() - i,
        {
            segment_ids.push(self.segment_ids[i]);
            i = i + 1;
            assert(self.segment_ids@.take(i as int) =~= self.segment_ids@.take(i - 1).push(
                self.segment_ids@[i - 1],
            ));
        }
        assert(self.segment_ids@.take(i as int) =~= self.segment_ids@);
        EngineRuntimeOperationDetail {
            table_id: self.table_id,
            segment_ids,
            segment_ids_truncated: self.segment_ids_truncated,
            reason: self.reason.clone(),
        }
    }
}

/// Rows and bytes that went in, came out and were freed.
#[derive(Debug, Clone, Copy, PartialEq, Eq, Structural)]
pub struct WorkTotals {
    pub input_rows: u64,
    pub input_bytes: u64,
    pub output_rows: u64,
    pub output_bytes: u64,
    pub reclaimed_rows: u64,
    pub reclaimed_bytes: u64,
}

pub open spec fn no_work() -> WorkTotals {
    WorkTotals {
        input_rows: 0,
        input_bytes: 0,
        output_rows: 0,
        output_bytes: 0,
        reclaimed_rows: 0,
        reclaimed_bytes: 0,
    }
}

pub open spec fn work_sum(a: WorkTotals, b: WorkTotals) -> WorkTotals {
    WorkTotals {
        input_rows: a.input_rows.wrapping_add(b.input_rows),
        input_bytes: a.input_bytes.wrapping_add(b.input_bytes),
        output_rows: a.output_rows.wrapping_add(b.output_rows),
        output_bytes: a.output_bytes.wrapping_add(b.output_bytes),
        reclaimed_rows: a.reclaimed_rows.wrapping_add(b.reclaimed_rows),
        reclaimed_bytes: a.reclaimed_bytes.wrapping_add(b.reclaimed_bytes),
    }
}

impl WorkTotals {
    pub fn zero() -> (r: Self)
        ensures
            r == no_work(),
    {
        WorkTotals {
            input_rows: 0,
            input_bytes: 0,
            output_rows: 0,
            output_bytes: 0,
            reclaimed_rows: 0,
            reclaimed_bytes: 0,
        }
    }

    pub fn plus(self, other: WorkTotals) -> (r: Self)
        ensures
            r == work_sum(self, other),
    {
        WorkTotals {
            input_rows: self.input_rows.wrapping_add(other.input_rows),
            input_bytes: self.input_bytes.wrapping_add(other.input_bytes),
            output_rows: self.output_rows.wrapping_add(other.output_rows),
            output_bytes: self.output_bytes.wrapping_add(other.output_bytes),
            reclaimed_rows: self.reclaimed_rows.wrapping_add(other.reclaimed_rows),
            reclaimed_bytes: self.reclaimed_bytes.wrapping_add(other.reclaimed_bytes),
        }
    }
}

/// Counters of one operation class.
#[derive(Debug, Clone, Copy, PartialEq, Eq, Structural)]
pub struct OperationCounters {
    pub active: bool,
    pub epoch: u64,
    pub started_unix_millis: u64,
    pub calls: u64,
    pub completed: u64,
    pub failed: u64,
    pub last_success_unix_millis: u64,
    pub last_failure_unix_millis: u64,
    pub last_duration_nanos: u64,
    pub current: WorkTotals,
    pub last: WorkTotals,
    pub total: WorkTotals,
    /// Operation-specific marker; a checkpoint keeps its log position here.
    pub last_result_marker: u64,
}

/// One operation class with what it touches at the moment.
#[derive(Debug)]
pub struct RuntimeOperationState {
    pub counters: OperationCounters,
    pub detail: EngineRuntimeOperationDetail,
}

/// One operation between its start and its end.
#[derive(Debug, PartialEq, Eq, Structural)]
pub struct RuntimeOperationGuard {
    pub epoch: u64,
    pub finished: bool,
}

/// One operation class for an observer.
#[derive(Debug)]
pub struct EngineRuntimeOperationSnapshot {
    pub counters: OperationCounters,
    pub elapsed_millis: u64,
    pub detail: EngineRuntimeOperationDetail,
}

impl RuntimeOperationState {
    pub fn new() -> (r: Self)
        ensures
            r.counters == (OperationCounters {
                active: false,
                epoch: 0,
                started_unix_millis: 0,
                calls: 0,
                completed: 0,
                failed: 0,
                last_success_unix_millis: 0,
                last_failure_unix_millis: 0,
                last_duration_nanos: 0,
                current: no_work(),
                last: no_work(),
                total: no_work(),
                last_result_marker: 0,
            }),
            r.detail@ == no_detail(),
    {
        RuntimeOperationState {
            counters: OperationCounters {
                active: false,
                epoch: 0,
                started_unix_millis: 0,
                calls: 0,
                completed: 0,
                failed: 0,
                last_success_unix_millis: 0,
                last_failure_unix_millis: 0,
                last_duration_nanos: 0,
                current: WorkTotals::zero(),
                last: WorkTotals::zero(),
                total: WorkTotals::zero(),
                last_result_marker: 0,
            },
            detail: EngineRuntimeOperationDetail::none(),
        }
    }

    /// Begins an operation; the one before it, if any, is superseded.
    pub fn start(&mut self, now_unix_millis: u64) -> (guard: RuntimeOperationGuard)
        ensures
            final(self).counters == (OperationCounters {
                active: true,
                epoch: old(self).counters.epoch.wrapping_add(1),
                started_unix_millis: now_unix_millis,
                calls: old(self).counters.calls.wrapping_add(1),
                current: no_work(),
                ..old(self).counters
            }),
            final(self).detail@ == no_detail(),
            !guard.finished,
            guard.epoch == if old(self).counters.epoch == u64::MAX {
                u64::MAX
            } else {
                (old(self).counters.epoch + 1) as u64
            },
    {
        let epoch: u64 = self.counters.epoch.saturating_add(1);
        self.counters.current = WorkTotals::zero();
        self.counters.calls = self.counters.calls.wrapping_add(1);
        self.counters.epoch = self.counters.epoch.wrapping_add(1);
        self.counters.started_unix_millis = now_unix_millis;
        self.counters.active = true;
        self.detail = EngineRuntimeOperationDetail::none();
        RuntimeOperationGuard { epoch, finished: false }
    }

    /// The class for an observer; elapsed time counts while active.
    pub fn snapshot(&self, now_unix_millis: u64) -> (r: EngineRuntimeOperationSnapshot)
        ensures
            r.counters == self.counters,
            r.elapsed_millis == if self.counters.active {
                monus(now_unix_millis as int, self.counters.started_unix_millis as int)
            } else {
                0
            },
            r.detail@ == self.detail@,
    {
        EngineRuntimeOperationSnapshot {
            counters: self.counters,
            elapsed_millis: if self.counters.active {
                now_unix_millis.saturating_sub(self.counters.started_unix_millis)
            } else {
                0
            },
            detail: self.detail.duplicate(),
        }
    }
}

/// The first identities of a set, in order: what a detail shows.
pub open spec fn shown_ids(all: Seq<u64>, shown: Seq<u64>) -> bool {
    &&& is_sorted(shown)
    &&& is_permutation(
        shown,
        all.take(spec_min(all.len() as int, RUNTIME_STATS_MAX_ACTIVE_SEGMENT_IDS as int)),
    )
}

pub open spec fn counters_after_finish(
    counters: OperationCounters,
    success: bool,
    elapsed_nanos: u64,
    now_unix_millis: u64,
) -> OperationCounters {
    let closed = OperationCounters {
        active: false,
        last: counters.current,
        total: work_sum(counters.total, counters.current),
        last_duration_nanos: elapsed_nanos,
        ..counters
    };
    if success {
        OperationCounters {
            completed: counters.completed.wrapping_add(1),
            last_success_unix_millis: now_unix_millis,
            ..closed
        }
    } else {
        OperationCounters {
            failed: counters.failed.wrapping_add(1),
            last_failure_unix_millis: now_unix_millis,
            ..closed
        }
    }
}

impl RuntimeOperationGuard {
    /// Says which table and segments the operation works on, and why.
    pub fn set_detail_with_reason(
        &self,
        state: &mut RuntimeOperationState,
        table_name: &str,
        segment_ids: &Vec<u64>,
        reason: &str,
    )
        ensures
            final(state).counters == old(state).counters,
            final(state).detail.table_id == Some(fnv1a(table_name.spec_bytes())),
            shown_ids(segment_ids@, final(state).detail.segment_ids@),
            final(state).detail.segment_ids_truncated == (segment_ids@.len()
                > RUNTIME_STATS_MAX_ACTIVE_SEGMENT_IDS),
            final(state).detail.reason@ == clipped(reason@, DETAIL_REASON_CHARS as nat),
    {
        let shown: usize = min_size(segment_ids.len(), RUNTIME_STATS_MAX_ACTIVE_SEGMENT_IDS);
        let mut bounded: Vec<u64> = Vec::new();
        let mut i: usize = 0;
        while i < shown
            invariant
                0 <= i <= shown <= segment_ids@.len(),
                bounded@ == segment_ids@.take(i as int),
            decreases shown - i,
        {
            bounded.push(segment_ids[i]);
            i = i + 1;
            assert(segment_ids@.take(i as int) =~= segment_ids@.take(i - 1).push(
                segment_ids@[i - 1],
            ));
        }
        state.detail =
        EngineRuntimeOperationDetail {
            table_id: Some(runtime_owner_id(table_name)),
            segment_ids: sorted(bounded),
            segment_ids_truncated: segment_ids.len() > RUNTIME_STATS_MAX_ACTIVE_SEGMENT_IDS,
            reason: clip(reason, DETAIL_REASON_CHARS),
        };
    }

    /// Replaces the reason alone.
    pub fn set_reason(&self, state: &mut RuntimeOperationState, reason: &str)
        ensures
            final(state).counters == old(state).counters,
            final(state).detail@ == (DetailView {
                reason: clipped(reason@, DETAIL_REASON_CHARS as nat),
                ..old(state).detail@
            }),
    {
        state.detail.reason = clip(reason, DETAIL_REASON_CHARS);
    }

    pub fn add_input(&self, state: &mut RuntimeOperationState, rows: u64, bytes: u64)
        ensures
            final(state).detail == old(state).detail,
            final(state).counters == (OperationCounters {
                current: WorkTotals {
                    input_rows: old(state).counters.current.input_rows.wrapping_add(rows),
                    input_bytes: old(state).counters.current.input_bytes.wrapping_add(bytes),
                    ..old(state).counters.current
                },
                ..old(state).counters
            }),
    {
        state.counters.current.input_rows = state.counters.current.input_rows.wrapping_add(rows);
        state.counters.current.input_bytes = state.counters.current.input_bytes.wrapping_add(bytes);
    }

    pub fn add_output(&self, state: &mut RuntimeOperationState, rows: u64, bytes: u64)
        ensures
            final(state).detail == old(state).detail,
            final(state).counters == (OperationCounters {
                current: WorkTotals {
                    output_rows: old(state).counters.current.output_rows.wrapping_add(rows),
                    output_bytes: old(state).counters.current.output_bytes.wrapping_add(bytes),
                    ..old(state).counters.current
                },
                ..old(state).counters
            }),
    {
        state.counters.current.output_rows = state.counters.current.output_rows.wrapping_add(rows);
        state.counters.current.output_bytes =
            state.counters.current.output_bytes.wrapping_add(bytes);
    }

    pub fn add_reclaimed(&self, state: &mut RuntimeOperationState, rows: u64, bytes: u64)
        ensures
            final(state).detail == old(state).detail,
            final(state).counters == (OperationCounters {
                current: WorkTotals {
                    reclaimed_rows: old(state).counters.current.reclaimed_rows.wrapping_add(rows),
                    reclaimed_bytes: old(state).counters.current.reclaimed_bytes.wrapping_add(
                        bytes,
                    ),
                    ..old(state).counters.current
                },
                ..old(state).counters
            }),
    {
        state.counters.current.reclaimed_rows =
            state.counters.current.reclaimed_rows.wrapping_add(rows);
        state.counters.current.reclaimed_bytes =
            state.counters.current.reclaimed_bytes.wrapping_add(bytes);
    }

    /// Notes a result. The marker never goes back.
    pub fn set_result_marker(&self, state: &mut RuntimeOperationState, marker: u64)
        ensures
            final(state).detail == old(state).detail,
            final(state).counters == (OperationCounters {
                last_result_marker: if marker > old(state).counters.last_result_marker {
                    marker
                } else {
                    old(state).counters.last_result_marker
                },
                ..old(state).counters
            }),
    {
        if marker > state.counters.last_result_marker {
            state.counters.last_result_marker = marker;
        }
    }

    /// Ends the operation as completed.
    pub fn success(
        self,
        state: &mut RuntimeOperationState,
        elapsed_nanos: u64,
        now_unix_millis: u64,
    )
        ensures
            final(state).detail == old(state).detail,
            final(state).counters == if !self.finished && old(state).counters.epoch == self.epoch {
                counters_after_finish(old(state).counters, true, elapsed_nanos, now_unix_millis)
            } else {
                old(state).counters
            },
    {
        let mut guard = self;
        guard.finish(state, true, elapsed_nanos, now_unix_millis);
    }

    /// Ends the operation as failed.
    pub fn failure(
        self,
        state: &mut RuntimeOperationState,
        elapsed_nanos: u64,
        now_unix_millis: u64,
    )
        ensures
            final(state).detail == old(state).detail,
            final(state).counters == if !self.finished && old(state).counters.epoch == self.epoch {
                counters_after_finish(old(state).counters, false, elapsed_nanos, now_unix_millis)
            } else {
                old(state).counters
            },
    {
        let mut guard = self;
        guard.finish(state, false, elapsed_nanos, now_unix_millis);
    }

    /// Ends the operation once. A superseded operation leaves no trace.
    pub fn finish(
        &mut self,
        state: &mut RuntimeOperationState,
        success: bool,
        elapsed_nanos: u64,
        now_unix_millis: u64,
    )
        ensures
            final(self).finished,
            final(self).epoch == old(self).epoch,
            final(state).detail == old(state).detail,
            final(state).counters == if !old(self).finished && old(state).counters.epoch == old(
                self,
            ).epoch {
                counters_after_finish(
                    old(state).counters,
                    success,
                    elapsed_nanos,
                    now_unix_millis,
                )
            } else {
                old(state).counters
            },
    {
        if self.finished {
            return;
        }
        if state.counters.epoch == self.epoch {
            state.counters.last = state.counters.current;
            state.counters.total = state.counters.total.plus(state.counters.current);
            state.counters.last_duration_nanos = elapsed_nanos;
            if success {
                state.counters.completed = state.counters.completed.wrapping_add(1);
                state.counters.last_success_unix_millis = now_unix_millis;
            } else {
                state.counters.failed = state.counters.failed.wrapping_add(1);
                state.counters.last_failure_unix_millis = now_unix_millis;
            }
            state.counters.active = false;
        }
        self.finished = true;
    }
}

/// Calls that have ended one way or the other, or are running.
pub open spec fn unfinished_calls(counters: OperationCounters) -> int {
    counters.calls - counters.completed - counters.failed
}

/// An operation that is not superseded is counted once, as completed or as
/// failed; ending it again changes nothing.
pub proof fn law_operation_ends_once(
    counters: OperationCounters,
    success: bool,
    elapsed_nanos: u64,
    now_unix_millis: u64,
)
    requires
        counters.completed < u64::MAX,
        counters.failed < u64::MAX,
    ensures
        ({
            let after = counters_after_finish(counters, success, elapsed_nanos, now_unix_millis);
            &&& unfinished_calls(after) == unfinished_calls(counters) - 1
            &&& !after.active
            &&& after.last == counters.current
            &&& after.total == work_sum(counters.total, counters.current)
        }),
{
}

} // verus!
