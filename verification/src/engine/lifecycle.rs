//! Opening and closing the engine.
use crate::error::refusal;
use crate::error::Error;
use crate::error::ErrorView;
use crate::text::decimal;
use crate::text::decimal_digits;
use crate::text::same_text;
use vstd::prelude::*;
use vstd::string::StringExecFns;

verus! {

/// Outcome of the engine's last transition.
#[derive(Debug)]
pub enum EngineLifecycleState {
    Closed,
    Opening,
    Ready,
    Closing,
    /// Closing failed and may be tried again.
    CloseFailed(Error),
    /// Opening failed.
    Failed(Error),
}

pub enum LifecycleView {
    Closed,
    Opening,
    Ready,
    Closing,
    CloseFailed(ErrorView),
    Failed(ErrorView),
}

impl View for EngineLifecycleState {
    type V = LifecycleView;

    open spec fn view(&self) -> LifecycleView {
        match self {
            EngineLifecycleState::Closed => LifecycleView::Closed,
            EngineLifecycleState::Opening => LifecycleView::Opening,
            EngineLifecycleState::Ready => LifecycleView::Ready,
            EngineLifecycleState::Closing => LifecycleView::Closing,
            EngineLifecycleState::CloseFailed(e) => LifecycleView::CloseFailed(e@),
            EngineLifecycleState::Failed(e) => LifecycleView::Failed(e@),
        }
    }
}

impl EngineLifecycleState {
    /// The state as statistics show it.
    pub fn label(&self) -> (r: &'static str)
        ensures
            r@ == match self@ {
                LifecycleView::Closed => "closed"@,
                LifecycleView::Opening => "opening"@,
                LifecycleView::Ready => "ready"@,
                LifecycleView::Closing => "closing"@,
                LifecycleView::CloseFailed(_) => "close_failed"@,
                LifecycleView::Failed(_) => "failed"@,
            },
    {
        match self {
            EngineLifecycleState::Closed => "closed",
            EngineLifecycleState::Opening => "opening",
            EngineLifecycleState::Ready => "ready",
            EngineLifecycleState::Closing => "closing",
            EngineLifecycleState::CloseFailed(_) => "close_failed",
            EngineLifecycleState::Failed(_) => "failed",
        }
    }

    /// The state for an observer.
    pub fn duplicate(&self) -> (r: Self)
        ensures
            r@ == self@,
    {
        match self {
            EngineLifecycleState::Closed => EngineLifecycleState::Closed,
            EngineLifecycleState::Opening => EngineLifecycleState::Opening,
            EngineLifecycleState::Ready => EngineLifecycleState::Ready,
            EngineLifecycleState::Closing => EngineLifecycleState::Closing,
            EngineLifecycleState::CloseFailed(e) => EngineLifecycleState::CloseFailed(
                e.duplicate(),
            ),
            EngineLifecycleState::Failed(e) => EngineLifecycleState::Failed(e.duplicate()),
        }
    }
}

/// What decides which transitions are open.
#[derive(Debug)]
pub struct EngineLifecycle {
    pub open: bool,
    pub opened_once: bool,
    pub state: EngineLifecycleState,
    /// The final checkpoint of the current close is done.
    pub shutdown_checkpoint_complete: bool,
}

#[verifier::ext_equal]
pub struct EngineView {
    pub open: bool,
    pub opened_once: bool,
    pub state: LifecycleView,
    pub shutdown_checkpoint_complete: bool,
}

impl View for EngineLifecycle {
    type V = EngineView;

    open spec fn view(&self) -> EngineView {
        EngineView {
            open: self.open,
            opened_once: self.opened_once,
            state: self.state@,
            shutdown_checkpoint_complete: self.shutdown_checkpoint_complete,
        }
    }
}

pub open spec fn is_closing(state: LifecycleView) -> bool {
    state is Closing || state is CloseFailed
}

/// What a call to open does.
pub open spec fn opening(engine: EngineView) -> Result<bool, ErrorView> {
    if engine.open {
        Ok(false)
    } else if engine.opened_once {
        Err(ErrorView::EngineNotOpen)
    } else {
        Ok(true)
    }
}

/// What a call to close does: whether there is work, or why it is refused.
pub open spec fn closing(engine: EngineView) -> Result<bool, ErrorView> {
    if is_closing(engine.state) || engine.open {
        Ok(true)
    } else if engine.state is Closed {
        Ok(false)
    } else {
        Err(ErrorView::Internal("engine is not open and has no retryable close transition"@))
    }
}

impl EngineLifecycle {
    pub fn new() -> (r: Self)
        ensures
            r@ == (EngineView {
                open: false,
                opened_once: false,
                state: LifecycleView::Closed,
                shutdown_checkpoint_complete: false,
            }),
    {
        EngineLifecycle {
            open: false,
            opened_once: false,
            state: EngineLifecycleState::Closed,
            shutdown_checkpoint_complete: false,
        }
    }

    /// Starts to open. An open engine stays as it is; one that was open
    /// before cannot be opened again.
    pub fn open_engine(&mut self) -> (r: Result<bool, Error>)
        ensures
            match r {
                Ok(work) => opening(old(self)@) == Ok::<bool, ErrorView>(work),
                Err(e) => opening(old(self)@) == Err::<bool, ErrorView>(e@),
            },
            final(self)@ == (if opening(old(self)@) == Ok::<bool, ErrorView>(true) {
                EngineView { state: LifecycleView::Opening, ..old(self)@ }
            } else {
                old(self)@
            }),
    {
        if self.open {
            return Ok(false);
        }
        if self.opened_once {
            return Err(Error::EngineNotOpen);
        }
        self.state = EngineLifecycleState::Opening;
        Ok(true)
    }

    /// Recovery went well: the engine takes work.
    pub fn opened(&mut self)
        ensures
            final(self)@ == (EngineView {
                open: true,
                opened_once: true,
                state: LifecycleView::Ready,
                ..old(self)@
            }),
    {
        self.opened_once = true;
        self.open = true;
        self.state = EngineLifecycleState::Ready;
    }

    /// Recovery failed: the engine is as it was before, and says why.
    pub fn fail_startup(&mut self, error: Error) -> (e: Error)
        ensures
            e@ == error@,
            final(self)@ == (EngineView {
                open: false,
                opened_once: old(self)@.opened_once,
                state: LifecycleView::Failed(error@),
                shutdown_checkpoint_complete: false,
            }),
    {
        self.open = false;
        self.shutdown_checkpoint_complete = false;
        self.state = EngineLifecycleState::Failed(error.duplicate());
        error
    }

    /// Starts to close, or goes on where an earlier close failed.
    pub fn close_engine(&mut self) -> (r: Result<bool, Error>)
        ensures
            match r {
                Ok(work) => closing(old(self)@) == Ok::<bool, ErrorView>(work),
                Err(e) => closing(old(self)@) == Err::<bool, ErrorView>(e@),
            },
            final(self)@ == (if closing(old(self)@) != Ok::<bool, ErrorView>(true) {
                old(self)@
            } else if is_closing(old(self)@.state) {
                EngineView { state: LifecycleView::Closing, ..old(self)@ }
            } else {
                EngineView {
                    open: false,
                    state: LifecycleView::Closing,
                    shutdown_checkpoint_complete: false,
                    ..old(self)@
                }
            }),
    {
        let retrying: bool = match &self.state {
            EngineLifecycleState::Closing => true,
            EngineLifecycleState::CloseFailed(_) => true,
            _ => false,
        };
        if !retrying {
            if !self.open {
                let closed: bool = match &self.state {
                    EngineLifecycleState::Closed => true,
                    _ => false,
                };
                if closed {
                    return Ok(false);
                }
                return Err(
                    Error::internal("engine is not open and has no retryable close transition"),
                );
            }
            self.open = false;
            self.shutdown_checkpoint_complete = false;
        }
        self.state = EngineLifecycleState::Closing;
        Ok(true)
    }

    /// A step of closing failed. Resources stay owned, and closing may be
    /// tried again.
    pub fn record_close_failure(&mut self, error: Error) -> (e: Error)
        ensures
            e@ == error@,
            final(self)@ == (EngineView {
                state: LifecycleView::CloseFailed(error@),
                ..old(self)@
            }),
    {
        self.state = EngineLifecycleState::CloseFailed(error.duplicate());
        error
    }

    /// Whether closing still owes a final checkpoint.
    pub fn owes_final_checkpoint(&self, checkpoint_on_close: bool, persistent: bool) -> (r: bool)
        ensures
            r == (!self@.shutdown_checkpoint_complete && checkpoint_on_close && persistent),
    {
        !self.shutdown_checkpoint_complete && checkpoint_on_close && persistent
    }

    /// The final checkpoint is done, or there is none to do.
    pub fn final_checkpoint_done(&mut self)
        ensures
            final(self)@ == (EngineView { shutdown_checkpoint_complete: true, ..old(self)@ }),
    {
        self.shutdown_checkpoint_complete = true;
    }

    /// Everything is released.
    pub fn closed(&mut self)
        ensures
            final(self)@ == (EngineView { state: LifecycleView::Closed, ..old(self)@ }),
    {
        self.state = EngineLifecycleState::Closed;
    }

    /// No generation is open any more: the engine takes no work, and says
    /// why.
    pub fn lost(&mut self, error: &Error)
        ensures
            final(self)@ == (EngineView {
                open: false,
                state: LifecycleView::Failed(error@),
                ..old(self)@
            }),
    {
        self.open = false;
        self.state = EngineLifecycleState::Failed(error.duplicate());
    }

    pub fn is_open(&self) -> (r: bool)
        ensures
            r == self@.open,
    {
        self.open
    }
}

/// Attempts of a final checkpoint to drain the hot rows.
pub const DRAIN_ATTEMPTS: usize = 5;

/// What follows a pass of the final checkpoint.
#[derive(Debug, Clone, Copy, PartialEq, Eq, Structural)]
pub enum DrainStep {
    Drained,
    /// Commits still under way left rows behind.
    TryAgain,
    GiveUp,
}

/// Decides after pass number `attempt`, counted from zero.
pub fn after_drain_pass(attempt: usize, hot_rows_left: bool) -> (r: DrainStep)
    ensures
        r == (if !hot_rows_left {
            DrainStep::Drained
        } else if attempt + 1 < DRAIN_ATTEMPTS {
            DrainStep::TryAgain
        } else {
            DrainStep::GiveUp
        }),
{
    if !hot_rows_left {
        DrainStep::Drained
    } else if attempt < DRAIN_ATTEMPTS - 1 {
        DrainStep::TryAgain
    } else {
        DrainStep::GiveUp
    }
}

/// The final checkpoint did not get all rows out of memory.
pub fn undrained_error() -> (e: Error)
    ensures
        e@ == ErrorView::Internal(
            "final checkpoint did not drain all committed hot rows; resources remain owned and shutdown may be retried"@,
        ),
{
    Error::internal(
        "final checkpoint did not drain all committed hot rows; resources remain owned and shutdown may be retried",
    )
}

/// Refuses to go on closing under transactions that did not end in time;
/// `waited` is the time as it is printed.
pub fn check_transactions_ended(remaining: u64, waited: &str) -> (r: Result<(), Error>)
    ensures
        refusal(r) == (if remaining == 0 {
            None
        } else {
            Some(
                ErrorView::Internal(
                    "close_engine timed out with "@ + decimal_digits(remaining as nat)
                        + " active transaction(s) after "@ + waited@
                        + "; resources remain owned and shutdown may be retried"@,
                ),
            )
        }),
{
    if remaining > 0 {
        return Err(
            Error::Internal {
                message: String::from_str("close_engine timed out with ").concat(
                    decimal(remaining).as_str(),
                ).concat(" active transaction(s) after ").concat(waited).concat(
                    "; resources remain owned and shutdown may be retried",
                ),
            },
        );
    }
    Ok(())
}

/// Refuses a configuration that would need another database.
pub fn update_engine_config(
    current_path: &str,
    path: &str,
    current_workers: usize,
    workers: usize,
) -> (r: Result<(), Error>)
    ensures
        refusal(r) == (if path@ != current_path@ {
            Some(ErrorView::Internal("cannot change database path after opening"@))
        } else if workers != current_workers {
            Some(
                ErrorView::InvalidArgument(
                    "storage_cpu_workers is fixed when the database opens; restart with the new value"@,
                ),
            )
        } else {
            None
        }),
{
    if !same_text(path, current_path) {
        return Err(Error::internal("cannot change database path after opening"));
    }
    if workers != current_workers {
        return Err(
            Error::invalid_argument(
                "storage_cpu_workers is fixed when the database opens; restart with the new value",
            ),
        );
    }
    Ok(())
}

/// Whether a path stands for a database without files.
pub fn is_in_memory(path: &str) -> (r: bool)
    ensures
        r == (path@ == "memory://"@),
{
    same_text(path, "memory://")
}

/// Path an engine keeps for a configured one.
pub open spec fn kept_path(configured: Option<Seq<char>>) -> Seq<char> {
    match configured {
        Some(path) if path.len() > 0 => path,
        _ => "memory://"@,
    }
}

/// Path under which an engine stands: without one, its database is in memory.
pub fn engine_path(configured: Option<&str>) -> (r: String)
    ensures
        r@ == kept_path(
            match configured {
                Some(path) => Some(path@),
                None => None,
            },
        ),
{
    proof {
        reveal_strlit("");
    }
    match configured {
        Some(path) => {
            if same_text(path, "") {
                String::from_str("memory://")
            } else {
                assert(path@.len() == 0 ==> path@ =~= ""@);
                String::from_str(path)
            }
        },
        None => String::from_str("memory://"),
    }
}

/// Path of an engine's files, where it has any.
pub fn path(kept: &str) -> (r: Option<&str>)
    ensures
        match r {
            Some(shown) => kept@ != "memory://"@ && shown@ == kept@,
            None => kept@ == "memory://"@,
        },
{
    if is_in_memory(kept) {
        None
    } else {
        Some(kept)
    }
}

/// Background work to start.
#[derive(Debug, Clone, Copy, PartialEq, Eq, Structural)]
pub struct CleanupPlan {
    pub worker: bool,
    pub warmup: bool,
}

/// Decides what to start: a worker for cleaning or for a database in files,
/// unless it runs already, and the warming of the page cache.
pub fn start_cleanup(
    cleanup_enabled: bool,
    persistence_enabled: bool,
    page_cache_enabled: bool,
    worker_runs: bool,
) -> (r: CleanupPlan)
    ensures
        r.worker == ((cleanup_enabled || persistence_enabled) && !worker_runs),
        r.warmup == page_cache_enabled,
{
    CleanupPlan {
        worker: (cleanup_enabled || persistence_enabled) && !worker_runs,
        warmup: page_cache_enabled,
    }
}

/// An engine that failed to open can be opened again; one that was open
/// cannot.
pub proof fn law_engine_opens_once(engine: EngineView)
    requires
        !engine.open,
    ensures
        engine.opened_once ==> opening(engine) is Err,
        !engine.opened_once ==> opening(engine) == Ok::<bool, ErrorView>(true),
{
}

/// A close that failed is never taken for done: the next call goes on with
/// it, and the engine takes no work in between.
pub proof fn law_failed_close_is_retried(engine: EngineView, error: ErrorView)
    requires
        engine.state is Closing,
        !engine.open,
    ensures
        ({
            let failed = EngineView { state: LifecycleView::CloseFailed(error), ..engine };
            closing(failed) == Ok::<bool, ErrorView>(true) && !failed.open
        }),
{
}

} // verus!
