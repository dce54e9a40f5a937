//! Closing the engine, step by step.
//!
//! Closing stops workers, ends transactions, seals what is left in memory and
//! releases resources. A step that fails leaves every resource owned, and the
//! next call goes on.
use crate::engine::lifecycle::after_drain_pass;
use crate::engine::lifecycle::check_transactions_ended;
use crate::engine::lifecycle::undrained_error;
use crate::engine::lifecycle::DrainStep;
use crate::engine::lifecycle::EngineLifecycle;
use crate::engine::lifecycle::EngineView;
use crate::engine::lifecycle::LifecycleView;
use crate::engine::lifecycle::DRAIN_ATTEMPTS;
use crate::error::Error;
use crate::error::ErrorView;
use crate::text::decimal_digits;
use vstd::prelude::*;
use vstd::string::StringExecFns;

verus! {

/// What a close waits for.
#[derive(Debug, Clone, Copy, PartialEq, Eq, Structural)]
pub enum ClosePhase {
    StopWarmup,
    StopWorker,
    /// Transactions that were open when admission ended.
    EndTransactions,
    /// Whether there is anything to write.
    Inquire,
    FinalCheckpoint,
    CountHot,
    FinalMerge,
    /// A merge that runs in the background.
    AwaitMerge,
    StopPersistence,
    CloseStores,
    RevokePublisher,
    ReleaseLock,
    Closed,
    Failed,
}

/// What came of a step.
#[derive(Debug)]
pub enum CloseEvent {
    /// A step whose error is reported by its text.
    Text(Result<(), String>),
    Outcome(Result<(), Error>),
    /// Transactions still open after the wait; `waited` is the time as it is
    /// printed.
    Remaining { transactions: u64, waited: String },
    Inquired { checkpoint_on_close: bool, persistent: bool },
    HotCounted { all_empty: bool },
    Passed,
}

/// A close in progress.
#[derive(Debug)]
pub struct CloseRun {
    phase: ClosePhase,
    /// Passes of the final checkpoint so far.
    passes: usize,
    persistent: bool,
    error: Option<Error>,
}

#[verifier::ext_equal]
pub struct CloseView {
    pub phase: ClosePhase,
    pub passes: usize,
    pub persistent: bool,
    /// Why the close failed.
    pub error: Option<ErrorView>,
}

impl View for CloseRun {
    type V = CloseView;

    closed spec fn view(&self) -> CloseView {
        CloseView {
            phase: self.phase,
            passes: self.passes,
            persistent: self.persistent,
            error: match self.error {
                None => None,
                Some(e) => Some(e@),
            },
        }
    }
}

/// A close and the engine that it closes.
#[verifier::ext_equal]
pub struct Closing {
    pub run: CloseView,
    pub engine: EngineView,
}

pub open spec fn started_close() -> CloseView {
    CloseView { phase: ClosePhase::StopWarmup, passes: 0, persistent: false, error: None }
}

pub open spec fn close_failed(before: Closing, error: ErrorView) -> Closing {
    Closing {
        run: CloseView { phase: ClosePhase::Failed, error: Some(error), ..before.run },
        engine: EngineView { state: LifecycleView::CloseFailed(error), ..before.engine },
    }
}

pub open spec fn close_at(before: Closing, phase: ClosePhase) -> Closing {
    Closing { run: CloseView { phase, ..before.run }, ..before }
}

/// The final checkpoint is behind the engine.
pub open spec fn checkpointed(before: Closing) -> Closing {
    Closing {
        run: CloseView { phase: ClosePhase::AwaitMerge, ..before.run },
        engine: EngineView { shutdown_checkpoint_complete: true, ..before.engine },
    }
}

pub open spec fn undrained() -> ErrorView {
    ErrorView::Internal(
        "final checkpoint did not drain all committed hot rows; resources remain owned and shutdown may be retried"@,
    )
}

pub open spec fn still_active(transactions: u64, waited: Seq<char>) -> ErrorView {
    ErrorView::Internal(
        "close_engine timed out with "@ + decimal_digits(transactions as nat)
            + " active transaction(s) after "@ + waited
            + "; resources remain owned and shutdown may be retried"@,
    )
}

/// What follows a step that went well.
pub open spec fn close_step_done(before: Closing) -> Closing {
    match before.run.phase {
        ClosePhase::StopWorker => close_at(before, ClosePhase::EndTransactions),
        ClosePhase::FinalCheckpoint => close_at(before, ClosePhase::CountHot),
        ClosePhase::FinalMerge => checkpointed(before),
        ClosePhase::StopPersistence => close_at(before, ClosePhase::CloseStores),
        _ => before,
    }
}

/// What follows an event. One that the close does not wait for changes
/// nothing.
pub open spec fn close_next(before: Closing, event: CloseEvent) -> Closing {
    match (before.run.phase, event) {
        (ClosePhase::StopWarmup, CloseEvent::Text(r)) => match r {
            Err(text) => close_failed(
                before,
                ErrorView::Internal("page-cache warmup worker failed: "@ + text@),
            ),
            Ok(_) => close_at(before, ClosePhase::StopWorker),
        },
        (
            ClosePhase::StopWorker
            | ClosePhase::FinalCheckpoint
            | ClosePhase::FinalMerge
            | ClosePhase::StopPersistence,
            CloseEvent::Outcome(r),
        ) => match r {
            Err(e) => close_failed(before, e@),
            Ok(_) => close_step_done(before),
        },
        (ClosePhase::EndTransactions, CloseEvent::Remaining { transactions, waited }) => {
            if transactions > 0 {
                close_failed(before, still_active(transactions, waited@))
            } else {
                close_at(before, ClosePhase::Inquire)
            }
        },
        (ClosePhase::Inquire, CloseEvent::Inquired { checkpoint_on_close, persistent }) => {
            let known = Closing {
                run: CloseView { persistent, ..before.run },
                engine: before.engine,
            };
            if before.engine.shutdown_checkpoint_complete {
                close_at(known, ClosePhase::AwaitMerge)
            } else if checkpoint_on_close && persistent {
                close_at(known, ClosePhase::FinalCheckpoint)
            } else {
                checkpointed(known)
            }
        },
        (ClosePhase::CountHot, CloseEvent::HotCounted { all_empty }) => {
            if all_empty {
                close_at(before, ClosePhase::FinalMerge)
            } else if before.run.passes + 1 < DRAIN_ATTEMPTS {
                Closing {
                    run: CloseView {
                        phase: ClosePhase::FinalCheckpoint,
                        passes: (before.run.passes + 1) as usize,
                        ..before.run
                    },
                    engine: before.engine,
                }
            } else {
                close_failed(before, undrained())
            }
        },
        (ClosePhase::AwaitMerge, CloseEvent::Passed) => close_at(
            before,
            if before.run.persistent {
                ClosePhase::StopPersistence
            } else {
                ClosePhase::CloseStores
            },
        ),
        (ClosePhase::CloseStores, CloseEvent::Passed) => close_at(
            before,
            ClosePhase::RevokePublisher,
        ),
        (ClosePhase::RevokePublisher, CloseEvent::Passed) => close_at(
            before,
            ClosePhase::ReleaseLock,
        ),
        (ClosePhase::ReleaseLock, CloseEvent::Passed) => Closing {
            run: CloseView { phase: ClosePhase::Closed, ..before.run },
            engine: EngineView { state: LifecycleView::Closed, ..before.engine },
        },
        _ => before,
    }
}

impl CloseRun {
    /// Starts once the engine has admitted a close.
    pub fn new() -> (r: Self)
        ensures
            r@ == started_close(),
    {
        CloseRun { phase: ClosePhase::StopWarmup, passes: 0, persistent: false, error: None }
    }

    /// The step to take. Before another pass of the final checkpoint there
    /// is a short pause.
    pub fn phase(&self) -> (r: ClosePhase)
        ensures
            r == self@.phase,
    {
        self.phase
    }

    fn fail(&mut self, engine: &mut EngineLifecycle, error: Error)
        ensures
            (Closing { run: final(self)@, engine: final(engine)@ }) == close_failed(
                Closing { run: old(self)@, engine: old(engine)@ },
                error@,
            ),
    {
        self.phase = ClosePhase::Failed;
        let kept: Error = engine.record_close_failure(error);
        self.error = Some(kept);
    }

    fn step_done(&mut self, engine: &mut EngineLifecycle)
        ensures
            (Closing { run: final(self)@, engine: final(engine)@ }) == close_step_done(
                Closing { run: old(self)@, engine: old(engine)@ },
            ),
    {
        match self.phase {
            ClosePhase::StopWorker => {
                self.phase = ClosePhase::EndTransactions;
            },
            ClosePhase::FinalCheckpoint => {
                self.phase = ClosePhase::CountHot;
            },
            ClosePhase::FinalMerge => {
                engine.final_checkpoint_done();
                self.phase = ClosePhase::AwaitMerge;
            },
            ClosePhase::StopPersistence => {
                self.phase = ClosePhase::CloseStores;
            },
            _ => {},
        }
    }

    /// Takes in what came of the last step and says which is next.
    pub fn advance(&mut self, engine: &mut EngineLifecycle, event: CloseEvent) -> (r: ClosePhase)
        requires
            old(self)@.passes < DRAIN_ATTEMPTS,
        ensures
            (Closing { run: final(self)@, engine: final(engine)@ }) == close_next(
                Closing { run: old(self)@, engine: old(engine)@ },
                event,
            ),
            final(self)@.passes < DRAIN_ATTEMPTS,
            r == final(self)@.phase,
    {
        match (self.phase, event) {
            (ClosePhase::StopWarmup, CloseEvent::Text(r)) => match r {
                Err(text) => {
                    let message: String = String::from_str(
                        "page-cache warmup worker failed: ",
                    ).concat(text.as_str());
                    self.fail(engine, Error::Internal { message });
                },
                Ok(_) => {
                    self.phase = ClosePhase::StopWorker;
                },
            },
            (
                ClosePhase::StopWorker
                | ClosePhase::FinalCheckpoint
                | ClosePhase::FinalMerge
                | ClosePhase::StopPersistence,
                CloseEvent::Outcome(r),
            ) => match r {
                Err(e) => self.fail(engine, e),
                Ok(_) => self.step_done(engine),
            },
            (ClosePhase::EndTransactions, CloseEvent::Remaining { transactions, waited }) => {
                match check_transactions_ended(transactions, waited.as_str()) {
                    Err(e) => self.fail(engine, e),
                    Ok(_) => {
                        self.phase = ClosePhase::Inquire;
                    },
                }
            },
            (ClosePhase::Inquire, CloseEvent::Inquired { checkpoint_on_close, persistent }) => {
                self.persistent = persistent;
                if engine.owes_final_checkpoint(checkpoint_on_close, persistent) {
                    self.phase = ClosePhase::FinalCheckpoint;
                } else {
                    engine.final_checkpoint_done();
                    self.phase = ClosePhase::AwaitMerge;
                }
            },
            (ClosePhase::CountHot, CloseEvent::HotCounted { all_empty }) => {
                match after_drain_pass(self.passes, !all_empty) {
                    DrainStep::Drained => {
                        self.phase = ClosePhase::FinalMerge;
                    },
                    DrainStep::TryAgain => {
                        self.passes = self.passes + 1;
                        self.phase = ClosePhase::FinalCheckpoint;
                    },
                    DrainStep::GiveUp => self.fail(engine, undrained_error()),
                }
            },
            (ClosePhase::AwaitMerge, CloseEvent::Passed) => {
                self.phase = if self.persistent {
                    ClosePhase::StopPersistence
                } else {
                    ClosePhase::CloseStores
                };
            },
            (ClosePhase::CloseStores, CloseEvent::Passed) => {
                self.phase = ClosePhase::RevokePublisher;
            },
            (ClosePhase::RevokePublisher, CloseEvent::Passed) => {
                self.phase = ClosePhase::ReleaseLock;
            },
            (ClosePhase::ReleaseLock, CloseEvent::Passed) => {
                engine.closed();
                self.phase = ClosePhase::Closed;
            },
            _ => {},
        }
        self.phase
    }

    /// Why the close failed, where it did.
    pub fn outcome(self) -> (r: Option<Error>)
        ensures
            match r {
                None => self@.error is None,
                Some(e) => self@.error == Some(e@),
            },
    {
        self.error
    }
}

/// Resources are being given up.
pub open spec fn releases(phase: ClosePhase) -> bool {
    match phase {
        ClosePhase::CloseStores
        | ClosePhase::RevokePublisher
        | ClosePhase::ReleaseLock
        | ClosePhase::Closed => true,
        _ => false,
    }
}

/// A close that fails has released nothing, and can be retried.
pub proof fn law_failed_close_keeps_resources(before: Closing, event: CloseEvent)
    requires
        before.run.phase != ClosePhase::Failed,
        close_next(before, event).run.phase == ClosePhase::Failed,
    ensures
        !releases(before.run.phase),
        close_next(before, event).engine.state is CloseFailed,
        close_next(before, event).run.error is Some,
{
}

/// The final checkpoint is behind the engine, or there was none to make.
pub open spec fn is_checkpointed(before: Closing) -> bool {
    match before.run.phase {
        ClosePhase::AwaitMerge | ClosePhase::StopPersistence => {
            before.engine.shutdown_checkpoint_complete
        },
        phase => releases(phase) ==> before.engine.shutdown_checkpoint_complete,
    }
}

/// Resources are released only once persistence has stopped, where there is
/// any, and once the final checkpoint is behind the engine.
pub proof fn law_resources_outlive_persistence(before: Closing, event: CloseEvent)
    requires
        is_checkpointed(before),
    ensures
        is_checkpointed(close_next(before, event)),
        releases(close_next(before, event).run.phase) && !releases(before.run.phase) ==> {
            &&& close_next(before, event).engine.shutdown_checkpoint_complete
            &&& before.run.persistent ==> before.run.phase == ClosePhase::StopPersistence && (
            event matches CloseEvent::Outcome(Ok(_)))
        },
{
}

/// A close that goes on after its final checkpoint does not make another.
pub proof fn law_final_checkpoint_is_made_once(
    before: Closing,
    checkpoint_on_close: bool,
    persistent: bool,
)
    requires
        before.run.phase == ClosePhase::Inquire,
        before.engine.shutdown_checkpoint_complete,
    ensures
        close_next(
            before,
            CloseEvent::Inquired { checkpoint_on_close, persistent },
        ).run.phase == ClosePhase::AwaitMerge,
{
}

/// Steps that a close may still take.
pub open spec fn close_steps_left(run: CloseView) -> int {
    match run.phase {
        ClosePhase::StopWarmup => 100,
        ClosePhase::StopWorker => 99,
        ClosePhase::EndTransactions => 98,
        ClosePhase::Inquire => 97,
        ClosePhase::FinalCheckpoint => 9 + 2 * (DRAIN_ATTEMPTS - run.passes),
        ClosePhase::CountHot => 8 + 2 * (DRAIN_ATTEMPTS - run.passes),
        ClosePhase::FinalMerge => 7,
        ClosePhase::AwaitMerge => 6,
        ClosePhase::StopPersistence => 5,
        ClosePhase::CloseStores => 4,
        ClosePhase::RevokePublisher => 3,
        ClosePhase::ReleaseLock => 2,
        ClosePhase::Closed => 0,
        ClosePhase::Failed => 0,
    }
}

/// A close ends: every event that it waits for brings it closer.
pub proof fn law_close_ends(before: Closing, event: CloseEvent)
    requires
        before.run.passes < DRAIN_ATTEMPTS,
    ensures
        close_next(before, event) == before || 0 <= close_steps_left(
            close_next(before, event).run,
        ) < close_steps_left(before.run),
{
}

} // verus!
