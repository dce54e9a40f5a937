//! Restoring a physical snapshot, step by step.
//!
//! A restoration keeps transactions out, materialises the selected snapshot
//! beside the live database and swaps the two. Whoever restores performs the
//! step that the run asks for and reports what came of it.
use super::members::persistence_refusal;
use super::swap::check_drained;
use super::swap::check_restored;
use super::swap::RestoreAdmission;
use crate::engine::lifecycle::EngineLifecycle;
use crate::engine::lifecycle::EngineView;
use crate::engine::lifecycle::LifecycleView;
use crate::error::Error;
use crate::error::ErrorView;
use crate::text::decimal_digits;
use vstd::prelude::*;

verus! {

/// What a restoration waits for.
#[derive(Debug, Clone, Copy, PartialEq, Eq, Structural)]
pub enum RestorePhase {
    /// The compaction slot, the exclusive catalog fence and the checkpoint
    /// lock.
    TakeFences,
    /// Transactions that were open when admission ended.
    EndTransactions,
    Select,
    PrepareStaging,
    Materialise,
    /// A staging root that is there although materialising reported an error.
    ValidateStaging,
    Swap,
    Done,
}

/// What materialising a snapshot came to.
#[derive(Debug)]
pub enum Materialised {
    Complete { same_snapshot: bool, same_root: bool },
    /// Materialising failed; the staging root may be there all the same.
    Faulty { error: Error, staging_exists: bool },
}

/// Why a swap failed.
#[derive(Debug)]
pub struct SwapFault {
    pub error: Error,
    /// No generation is open any more.
    pub persistence_lost: bool,
}

/// What came of a step.
#[derive(Debug)]
pub enum RestoreEvent {
    Fenced,
    Remaining { transactions: u64 },
    /// The identity of the selected snapshot, as it is printed.
    Selected(Result<String, Error>),
    Outcome(Result<(), Error>),
    Materialised(Materialised),
    Swapped(Result<(), SwapFault>),
}

/// A restoration in progress.
#[derive(Debug)]
pub struct RestoreRun {
    phase: RestorePhase,
    admission: Option<RestoreAdmission>,
    snapshot_id: Option<String>,
    error: Option<Error>,
}

#[verifier::ext_equal]
pub struct RestoreView {
    pub phase: RestorePhase,
    /// Transactions are kept out, and let in again at the end.
    pub resumes: bool,
    /// The selected snapshot.
    pub snapshot_id: Option<Seq<char>>,
    pub error: Option<ErrorView>,
}

impl View for RestoreRun {
    type V = RestoreView;

    closed spec fn view(&self) -> RestoreView {
        RestoreView {
            phase: self.phase,
            resumes: match self.admission {
                None => false,
                Some(admission) => admission.resume_on_drop,
            },
            snapshot_id: match self.snapshot_id {
                None => None,
                Some(id) => Some(id@),
            },
            error: match self.error {
                None => None,
                Some(e) => Some(e@),
            },
        }
    }
}

/// A restoration and the engine that it changes.
#[verifier::ext_equal]
pub struct Restoring {
    pub run: RestoreView,
    pub engine: EngineView,
}

pub open spec fn started_restore() -> RestoreView {
    RestoreView {
        phase: RestorePhase::TakeFences,
        resumes: false,
        snapshot_id: None,
        error: None,
    }
}

pub open spec fn restore_failed(before: Restoring, error: ErrorView) -> Restoring {
    Restoring {
        run: RestoreView { phase: RestorePhase::Done, error: Some(error), ..before.run },
        ..before
    }
}

pub open spec fn restore_at(before: Restoring, phase: RestorePhase) -> Restoring {
    Restoring { run: RestoreView { phase, ..before.run }, ..before }
}

/// The engine lost its database: nobody is let in again.
pub open spec fn restore_lost(before: Restoring, error: ErrorView) -> Restoring {
    Restoring {
        run: RestoreView {
            phase: RestorePhase::Done,
            resumes: false,
            error: Some(error),
            ..before.run
        },
        engine: EngineView { open: false, state: LifecycleView::Failed(error), ..before.engine },
    }
}

/// What follows an event. One that the run does not wait for changes nothing.
pub open spec fn restore_next(before: Restoring, event: RestoreEvent) -> Restoring {
    match (before.run.phase, event) {
        (RestorePhase::TakeFences, RestoreEvent::Fenced) => Restoring {
            run: RestoreView {
                phase: RestorePhase::EndTransactions,
                resumes: true,
                ..before.run
            },
            ..before
        },
        (RestorePhase::EndTransactions, RestoreEvent::Remaining { transactions }) => {
            if transactions != 0 {
                restore_failed(
                    before,
                    ErrorView::Internal(
                        "cannot restore while "@ + decimal_digits(transactions as nat)
                            + " transactions remain active"@,
                    ),
                )
            } else {
                restore_at(before, RestorePhase::Select)
            }
        },
        (RestorePhase::Select, RestoreEvent::Selected(r)) => match r {
            Err(e) => restore_failed(before, e@),
            Ok(id) => Restoring {
                run: RestoreView {
                    phase: RestorePhase::PrepareStaging,
                    snapshot_id: Some(id@),
                    ..before.run
                },
                ..before
            },
        },
        (
            RestorePhase::PrepareStaging | RestorePhase::ValidateStaging,
            RestoreEvent::Outcome(r),
        ) => match r {
            Err(e) => restore_failed(before, e@),
            Ok(_) => restore_at(
                before,
                match before.run.phase {
                    RestorePhase::PrepareStaging => RestorePhase::Materialise,
                    _ => RestorePhase::Swap,
                },
            ),
        },
        (RestorePhase::Materialise, RestoreEvent::Materialised(materialised)) => {
            match materialised {
                Materialised::Complete { same_snapshot, same_root } => {
                    if same_snapshot && same_root {
                        restore_at(before, RestorePhase::Swap)
                    } else {
                        restore_failed(
                            before,
                            ErrorView::Internal(
                                "physical restore outcome differs from the selected snapshot"@,
                            ),
                        )
                    }
                },
                Materialised::Faulty { error, staging_exists } => {
                    if staging_exists {
                        restore_at(before, RestorePhase::ValidateStaging)
                    } else {
                        restore_failed(before, error@)
                    }
                },
            }
        },
        (RestorePhase::Swap, RestoreEvent::Swapped(r)) => match r {
            Err(fault) => if fault.persistence_lost {
                restore_lost(before, fault.error@)
            } else {
                restore_failed(before, fault.error@)
            },
            Ok(_) => restore_at(before, RestorePhase::Done),
        },
        _ => before,
    }
}

/// Why a restoration cannot start.
pub open spec fn restore_refusal(open: bool, in_memory: bool, enabled: bool) -> Option<ErrorView> {
    persistence_refusal(
        open,
        in_memory,
        enabled,
        "RESTORE requires a persistent database"@,
        "RESTORE requires enabled persistence"@,
    )
}

/// Starts a restoration where there can be one.
pub fn restore_physical_snapshot(open: bool, in_memory: bool, enabled: bool) -> (r: Result<
    RestoreRun,
    Error,
>)
    ensures
        match r {
            Ok(run) => run@ == started_restore() && restore_refusal(
                open,
                in_memory,
                enabled,
            ) is None,
            Err(e) => restore_refusal(open, in_memory, enabled) == Some(e@),
        },
{
    if !open {
        return Err(Error::EngineNotOpen);
    }
    if in_memory {
        return Err(Error::invalid_argument("RESTORE requires a persistent database"));
    }
    if !enabled {
        return Err(Error::invalid_argument("RESTORE requires enabled persistence"));
    }
    Ok(
        RestoreRun {
            phase: RestorePhase::TakeFences,
            admission: None,
            snapshot_id: None,
            error: None,
        },
    )
}

impl RestoreRun {
    /// The step to take.
    pub fn phase(&self) -> (r: RestorePhase)
        ensures
            r == self@.phase,
    {
        self.phase
    }

    fn fail(&mut self, error: Error)
        ensures
            final(self)@ == (RestoreView {
                phase: RestorePhase::Done,
                error: Some(error@),
                ..old(self)@
            }),
    {
        self.phase = RestorePhase::Done;
        self.error = Some(error);
    }

    /// Takes in what came of the last step and says which is next.
    pub fn advance(&mut self, engine: &mut EngineLifecycle, event: RestoreEvent) -> (r:
        RestorePhase)
        ensures
            (Restoring { run: final(self)@, engine: final(engine)@ }) == restore_next(
                Restoring { run: old(self)@, engine: old(engine)@ },
                event,
            ),
            r == final(self)@.phase,
    {
        match (self.phase, event) {
            (RestorePhase::TakeFences, RestoreEvent::Fenced) => {
                self.phase = RestorePhase::EndTransactions;
                self.admission = Some(RestoreAdmission::new());
            },
            (RestorePhase::EndTransactions, RestoreEvent::Remaining { transactions }) => {
                match check_drained(transactions) {
                    Err(e) => self.fail(e),
                    Ok(_) => {
                        self.phase = RestorePhase::Select;
                    },
                }
            },
            (RestorePhase::Select, RestoreEvent::Selected(r)) => match r {
                Err(e) => self.fail(e),
                Ok(id) => {
                    self.snapshot_id = Some(id);
                    self.phase = RestorePhase::PrepareStaging;
                },
            },
            (
                RestorePhase::PrepareStaging | RestorePhase::ValidateStaging,
                RestoreEvent::Outcome(r),
            ) => match r {
                Err(e) => self.fail(e),
                Ok(_) => {
                    self.phase = match self.phase {
                        RestorePhase::PrepareStaging => RestorePhase::Materialise,
                        _ => RestorePhase::Swap,
                    };
                },
            },
            (RestorePhase::Materialise, RestoreEvent::Materialised(materialised)) => {
                match materialised {
                    Materialised::Complete { same_snapshot, same_root } => {
                        match check_restored(same_snapshot, same_root) {
                            Err(e) => self.fail(e),
                            Ok(_) => {
                                self.phase = RestorePhase::Swap;
                            },
                        }
                    },
                    Materialised::Faulty { error, staging_exists } => {
                        if staging_exists {
                            self.phase = RestorePhase::ValidateStaging;
                        } else {
                            self.fail(error);
                        }
                    },
                }
            },
            (RestorePhase::Swap, RestoreEvent::Swapped(r)) => match r {
                Err(fault) => {
                    if fault.persistence_lost {
                        self.admission = None;
                        engine.lost(&fault.error);
                    }
                    self.fail(fault.error);
                },
                Ok(_) => {
                    self.phase = RestorePhase::Done;
                },
            },
            _ => {},
        }
        self.phase
    }

    /// The snapshot that was restored or why that failed, once it is done,
    /// and whether transactions are let in again.
    pub fn outcome(self) -> (r: (Option<Result<String, Error>>, bool))
        ensures
            match r.0 {
                Some(Err(e)) => restored(self@) == Some(Err::<Seq<char>, ErrorView>(e@)),
                Some(Ok(id)) => restored(self@) == Some(Ok::<Seq<char>, ErrorView>(id@)),
                None => restored(self@) is None,
            },
            r.1 == self@.resumes,
    {
        let resumes: bool = match self.admission {
            None => false,
            Some(admission) => admission.finish(),
        };
        let end: Option<Result<String, Error>> = match (self.error, self.phase) {
            (Some(e), _) => Some(Err(e)),
            (None, RestorePhase::Done) => match self.snapshot_id {
                Some(id) => Some(Ok(id)),
                None => None,
            },
            _ => None,
        };
        (end, resumes)
    }
}

/// What a restoration came to, once it is done.
pub open spec fn restored(run: RestoreView) -> Option<Result<Seq<char>, ErrorView>> {
    match run.error {
        Some(e) => Some(Err(e)),
        None => match run.snapshot_id {
            Some(id) if run.phase == RestorePhase::Done => Some(Ok(id)),
            _ => None,
        },
    }
}

/// From the selection on, a restoration that did not fail has a snapshot.
pub open spec fn names_snapshot(run: RestoreView) -> bool {
    match run.phase {
        RestorePhase::TakeFences | RestorePhase::EndTransactions | RestorePhase::Select => true,
        _ => run.error is Some || run.snapshot_id is Some,
    }
}

/// A restoration that ends well ends with the snapshot that was selected: no
/// other event sets or changes its identity.
pub proof fn law_restore_ends_with_the_selected_snapshot(before: Restoring, event: RestoreEvent)
    requires
        names_snapshot(before.run),
    ensures
        names_snapshot(restore_next(before, event).run),
        restore_next(before, event).run.phase == RestorePhase::Done ==> restored(
            restore_next(before, event).run,
        ) is Some,
        restore_next(before, event).run.snapshot_id == match event {
            RestoreEvent::Selected(Ok(id)) if before.run.phase == RestorePhase::Select => Some(id@),
            _ => before.run.snapshot_id,
        },
{
}

/// Transactions are kept out from the fences to the end, and let in again
/// unless the engine lost its database.
pub open spec fn admission_agrees(before: Restoring) -> bool {
    match before.run.phase {
        RestorePhase::TakeFences => !before.run.resumes,
        RestorePhase::Done => before.run.resumes || !before.engine.open,
        _ => before.run.resumes,
    }
}

/// A restoration lets transactions in again, whatever came of it, unless no
/// generation is open any more: then the engine is not open either, and says
/// why.
pub proof fn law_restore_lets_transactions_in_again(before: Restoring, event: RestoreEvent)
    requires
        admission_agrees(before),
    ensures
        admission_agrees(restore_next(before, event)),
        before.run.phase != RestorePhase::Done && restore_next(before, event).run.phase
            == RestorePhase::Done && !restore_next(before, event).run.resumes
            ==> restore_next(before, event).engine.state is Failed,
{
}

/// What is swapped in is the selected snapshot, or a staging root that was
/// validated on its own.
pub proof fn law_only_sound_staging_is_swapped(before: Restoring, event: RestoreEvent)
    requires
        before.run.phase != RestorePhase::Swap,
        restore_next(before, event).run.phase == RestorePhase::Swap,
    ensures
        event == RestoreEvent::Materialised(
            Materialised::Complete { same_snapshot: true, same_root: true },
        ) || before.run.phase == RestorePhase::ValidateStaging && (
        event matches RestoreEvent::Outcome(Ok(_))),
{
}

} // verus!
