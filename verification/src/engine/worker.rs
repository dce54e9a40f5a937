//! Decisions of the background worker and of its locks.
use crate::error::refusal;
use crate::error::Error;
use crate::error::ErrorView;
use crate::num::sat64;
use vstd::prelude::*;
use vstd::string::StringExecFns;

verus! {

/// Time between two rounds of the worker.
pub const CHECK_INTERVAL_MILLIS: u64 = 100;

/// Time after which retiring artifacts is tried again.
pub const RETIREMENT_RETRY_MILLIS: u64 = 1000;

/// Times that the worker keeps.
#[derive(Debug, Clone, Copy, PartialEq, Eq, Structural)]
pub struct WorkerClock {
    pub since_cleanup_millis: u64,
    pub since_retirement_millis: u64,
}

/// What a round of the worker does besides sealing.
#[derive(Debug, Clone, Copy, PartialEq, Eq, Structural)]
pub struct WorkerRound {
    pub retire: bool,
    pub clean: bool,
}

impl WorkerClock {
    /// Retiring is due at once, cleaning after its interval.
    pub fn new() -> (r: Self)
        ensures
            r == (WorkerClock {
                since_cleanup_millis: 0,
                since_retirement_millis: RETIREMENT_RETRY_MILLIS,
            }),
    {
        WorkerClock { since_cleanup_millis: 0, since_retirement_millis: RETIREMENT_RETRY_MILLIS }
    }

    /// Lets one interval pass.
    pub fn tick(&mut self, cleanup_enabled: bool, cleanup_interval_millis: u64) -> (r: WorkerRound)
        ensures
            ({
                let retired = sat64(
                    old(self).since_retirement_millis + CHECK_INTERVAL_MILLIS,
                );
                let cleaned = sat64(old(self).since_cleanup_millis + CHECK_INTERVAL_MILLIS);
                &&& r.retire == (retired >= RETIREMENT_RETRY_MILLIS)
                &&& r.clean == (cleanup_enabled && cleaned >= cleanup_interval_millis)
                &&& final(self).since_retirement_millis == retired
                &&& final(self).since_cleanup_millis == if r.clean {
                    0
                } else {
                    cleaned
                }
            }),
    {
        self.since_retirement_millis =
        self.since_retirement_millis.saturating_add(CHECK_INTERVAL_MILLIS);
        self.since_cleanup_millis = self.since_cleanup_millis.saturating_add(CHECK_INTERVAL_MILLIS);
        let clean: bool = cleanup_enabled && self.since_cleanup_millis >= cleanup_interval_millis;
        if clean {
            self.since_cleanup_millis = 0;
        }
        WorkerRound { retire: self.since_retirement_millis >= RETIREMENT_RETRY_MILLIS, clean }
    }

    /// Retiring was tried: done or failed, it waits again. Where there was
    /// nothing to try, the next round looks again.
    pub fn retirement_tried(&mut self, tried: bool)
        ensures
            *final(self) == (if tried {
                WorkerClock { since_retirement_millis: 0, ..*old(self) }
            } else {
                *old(self)
            }),
    {
        if tried {
            self.since_retirement_millis = 0;
        }
    }
}

/// What becomes of a request to merge.
#[derive(Debug, Clone, Copy, PartialEq, Eq, Structural)]
pub enum MergeStep {
    Nothing,
    /// A merge runs: the request stays.
    KeepRequest,
    Start,
}

pub fn merge_step(requested: bool, running: bool) -> (r: MergeStep)
    ensures
        r == (if !requested {
            MergeStep::Nothing
        } else if running {
            MergeStep::KeepRequest
        } else {
            MergeStep::Start
        }),
{
    if !requested {
        MergeStep::Nothing
    } else if running {
        MergeStep::KeepRequest
    } else {
        MergeStep::Start
    }
}

/// Whether a finished merge asks for another: there is more to merge, or the
/// unmerged segments still weigh.
pub fn requests_next_merge(more_candidates: Result<bool, Error>, soft_pressure: bool) -> (r: bool)
    ensures
        r == ((more_candidates matches Ok(more) && more) || soft_pressure),
{
    let more: bool = match more_candidates {
        Ok(more) => more,
        Err(_) => false,
    };
    more || soft_pressure
}

/// Whether a scheduled checkpoint is due at all.
pub fn schedules_checkpoint(interval_secs: u32, persistent: bool) -> (r: bool)
    ensures
        r == (interval_secs > 0 && persistent),
{
    interval_secs > 0 && persistent
}

/// What a wait for the checkpoint lock comes to.
#[derive(Debug)]
pub enum LockTry {
    Taken,
    Busy,
    /// Another holder panicked; the text of the fault.
    Poisoned { text: String },
}

/// What follows a try.
#[derive(Debug, Clone, Copy, PartialEq, Eq, Structural)]
pub enum LockStep {
    Proceed,
    Wait,
}

/// Decides on one try; cancellation comes first.
pub fn lock_checkpoint_mutex_cancellable(cancelled: bool, tried: &LockTry) -> (r: Result<
    LockStep,
    Error,
>)
    ensures
        refusal(r) == (if cancelled {
            Some(ErrorView::QueryCancelled)
        } else {
            match tried {
                LockTry::Poisoned { text } => Some(
                    ErrorView::Internal("checkpoint mutex is poisoned: "@ + text@),
                ),
                _ => None,
            }
        }),
        r matches Ok(step) ==> step == (if tried is Taken {
            LockStep::Proceed
        } else {
            LockStep::Wait
        }),
{
    if cancelled {
        return Err(Error::QueryCancelled);
    }
    match tried {
        LockTry::Taken => Ok(LockStep::Proceed),
        LockTry::Busy => Ok(LockStep::Wait),
        LockTry::Poisoned { text } => Err(
            Error::Internal {
                message: String::from_str("checkpoint mutex is poisoned: ").concat(text.as_str()),
            },
        ),
    }
}

/// What a request to warm the page cache comes to.
#[derive(Debug)]
pub enum WarmupRequest {
    Warm,
    Reject { reason: String },
}

/// Decides on a request: `pinned` is absent without a physical generation,
/// else the outcome of pinning it.
pub fn request_page_cache_warmup(pinned: Option<Result<(), String>>) -> (r: WarmupRequest)
    ensures
        match pinned {
            None => r matches WarmupRequest::Reject { reason } && reason@
                == "CONTROL-selected physical generation is unavailable"@,
            Some(Ok(())) => r is Warm,
            Some(Err(text)) => r matches WarmupRequest::Reject { reason } && reason@
                == "cannot pin CONTROL-selected physical generation: "@ + text@,
        },
{
    match pinned {
        None => WarmupRequest::Reject {
            reason: String::from_str("CONTROL-selected physical generation is unavailable"),
        },
        Some(Ok(())) => WarmupRequest::Warm,
        Some(Err(text)) => WarmupRequest::Reject {
            reason: String::from_str("cannot pin CONTROL-selected physical generation: ").concat(
                text.as_str(),
            ),
        },
    }
}

/// How a worker that panicked is reported.
pub fn worker_panicked(detail: Option<&str>) -> (e: Error)
    ensures
        e@ == ErrorView::Internal(
            "cleanup worker panicked: "@ + match detail {
                Some(text) => text@,
                None => "unknown panic payload"@,
            },
        ),
{
    let text: &str = match detail {
        Some(text) => text,
        None => "unknown panic payload",
    };
    Error::Internal { message: String::from_str("cleanup worker panicked: ").concat(text) }
}

} // verus!
