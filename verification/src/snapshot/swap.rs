//! Swapping a restored generation for the live one.
//!
//! Every move is announced by a durable phase before it starts to matter, so
//! that whatever interrupts the swap, the next open knows which generation to
//! keep.
use super::components::PathStatus;
use super::state::encoded_state;
use super::state::PhysicalRestorePhase;
use super::state::PhysicalRestoreState;
use crate::error::refusal;
use crate::error::Error;
use crate::error::ErrorView;
use crate::text::decimal;
use crate::text::decimal_digits;
use crate::text::starts_with;
use crate::text::text_of;
use crate::text::chars_of;
use vstd::prelude::*;
use vstd::string::StringExecFns;

verus! {

/// Refuses to restore under transactions that did not end in time.
pub fn check_drained(remaining: u64) -> (r: Result<(), Error>)
    ensures
        refusal(r) == (if remaining == 0 {
            None
        } else {
            Some(
                ErrorView::Internal(
                    "cannot restore while "@ + decimal_digits(remaining as nat)
                        + " transactions remain active"@,
                ),
            )
        }),
{
    if remaining != 0 {
        return Err(
            Error::Internal {
                message: String::from_str("cannot restore while ").concat(
                    decimal(remaining).as_str(),
                ).concat(" transactions remain active"),
            },
        );
    }
    Ok(())
}

/// Refuses an outcome that is not the selected snapshot in the staging root.
pub fn check_restored(same_snapshot: bool, same_root: bool) -> (r: Result<(), Error>)
    ensures
        refusal(r) == (if same_snapshot && same_root {
            None
        } else {
            Some(
                ErrorView::Internal(
                    "physical restore outcome differs from the selected snapshot"@,
                ),
            )
        }),
{
    if !same_snapshot || !same_root {
        return Err(
            Error::internal("physical restore outcome differs from the selected snapshot"),
        );
    }
    Ok(())
}

/// Keeps transactions out while a restoration runs.
#[derive(Debug)]
pub struct RestoreAdmission {
    pub resume_on_drop: bool,
}

impl RestoreAdmission {
    pub fn new() -> (r: Self)
        ensures
            r.resume_on_drop,
    {
        RestoreAdmission { resume_on_drop: true }
    }

    /// Lets transactions in again; tells whether that is to be done now.
    pub fn resume(&mut self) -> (start: bool)
        ensures
            start == old(self).resume_on_drop,
            !final(self).resume_on_drop,
    {
        let start: bool = self.resume_on_drop;
        self.resume_on_drop = false;
        start
    }

    /// The database is gone: nobody is let in again.
    pub fn disarm(&mut self)
        ensures
            !final(self).resume_on_drop,
    {
        self.resume_on_drop = false;
    }

    /// Whether the end of the attempt lets transactions in.
    pub fn finish(self) -> (start: bool)
        ensures
            start == self.resume_on_drop,
    {
        self.resume_on_drop
    }
}

pub open spec fn state_file() -> Seq<char> {
    ".physical-restore-state"@
}

/// Leftovers of an earlier attempt that go before a new one is staged.
pub fn prepare_restore_staging(state_exists: bool, snapshot_id: &str) -> (r: Result<
    Vec<String>,
    Error,
>)
    ensures
        refusal(r) == (if state_exists {
            Some(
                ErrorView::Internal(
                    "physical restore state must be reconciled before starting another restore"@,
                ),
            )
        } else {
            None
        }),
        r matches Ok(paths) ==> paths@.len() == 3 && paths@[0]@ == ".physical-restore-staging"@
            && paths@[1]@ == ".restore-"@ + snapshot_id@ && paths@[2]@ == state_file() + ".tmp"@,
{
    if state_exists {
        return Err(
            Error::internal(
                "physical restore state must be reconciled before starting another restore",
            ),
        );
    }
    let mut paths: Vec<String> = Vec::new();
    paths.push(String::from_str(".physical-restore-staging"));
    paths.push(String::from_str(".restore-").concat(snapshot_id));
    paths.push(String::from_str(".physical-restore-state").concat(".tmp"));
    Ok(paths)
}

/// Whether an empty backup directory has to go first. One with contents has
/// no business there without a durable state.
pub fn prepare_restore_backup(path: &str, status: &PathStatus, is_empty: bool) -> (r: Result<
    bool,
    Error,
>)
    ensures
        refusal(r) == match status {
            PathStatus::Absent => None,
            PathStatus::Fault { text } => Some(
                ErrorView::Internal(
                    "failed to inspect physical restore backup '"@ + path@ + "': "@ + text@,
                ),
            ),
            PathStatus::Directory => if is_empty {
                None
            } else {
                Some(
                    ErrorView::Internal(
                        "non-empty physical restore backup exists without durable state"@,
                    ),
                )
            },
            _ => Some(
                ErrorView::Internal("physical restore backup is not a real directory"@),
            ),
        },
        r matches Ok(remove) ==> remove == (status is Directory),
{
    match status {
        PathStatus::Absent => Ok(false),
        PathStatus::Fault { text } => Err(
            Error::Internal {
                message: String::from_str("failed to inspect physical restore backup '").concat(
                    path,
                ).concat("': ").concat(text.as_str()),
            },
        ),
        PathStatus::Directory => {
            if !is_empty {
                return Err(
                    Error::internal(
                        "non-empty physical restore backup exists without durable state",
                    ),
                );
            }
            Ok(true)
        },
        _ => Err(Error::internal("physical restore backup is not a real directory")),
    }
}

/// The file that records the state, and its content.
pub fn write_physical_restore_state(state: PhysicalRestoreState) -> (r: (String, Vec<u8>))
    ensures
        r.0@ == state_file(),
        r.1@ == encoded_state(state),
{
    (String::from_str(".physical-restore-state"), state.encode())
}

/// What cleaning up does next.
#[derive(Debug)]
pub enum CleanupStep {
    Remove(String),
    /// Makes the removals so far durable.
    Sync,
}

pub open spec fn removes(step: CleanupStep, name: Seq<char>) -> bool {
    step matches CleanupStep::Remove(n) && n@ == name
}

/// Clears away a committed restoration. The record goes last, once everything
/// else is durably gone: until then cleaning up can be tried again.
pub fn cleanup_committed_restore() -> (steps: Vec<CleanupStep>)
    ensures
        steps@.len() == 6,
        removes(steps@[0], ".physical-restore-staging"@),
        removes(steps@[1], ".physical-restore-backup"@),
        removes(steps@[2], state_file() + ".tmp"@),
        steps@[3] is Sync,
        removes(steps@[4], state_file()),
        steps@[5] is Sync,
{
    let mut steps: Vec<CleanupStep> = Vec::new();
    steps.push(CleanupStep::Remove(String::from_str(".physical-restore-staging")));
    steps.push(CleanupStep::Remove(String::from_str(".physical-restore-backup")));
    steps.push(CleanupStep::Remove(String::from_str(".physical-restore-state").concat(".tmp")));
    steps.push(CleanupStep::Sync);
    steps.push(CleanupStep::Remove(String::from_str(".physical-restore-state")));
    steps.push(CleanupStep::Sync);
    steps
}

/// What an open finds to do about a restoration.
#[derive(Debug, Clone, Copy, PartialEq, Eq, Structural)]
pub enum Reconciliation {
    /// No record: only leftovers of a staging that never counted.
    DropOrphans,
    /// The new generation is the database.
    CleanUp,
    /// The previous generation is the database.
    RollBack,
}

/// Decides by the durable record.
pub fn reconcile_physical_restore(state: Option<PhysicalRestoreState>) -> (r: Reconciliation)
    ensures
        r == match state {
            None => Reconciliation::DropOrphans,
            Some(s) => if s.phase == PhysicalRestorePhase::Committed {
                Reconciliation::CleanUp
            } else {
                Reconciliation::RollBack
            },
        },
{
    match state {
        None => Reconciliation::DropOrphans,
        Some(s) => if s.phase == PhysicalRestorePhase::Committed {
            Reconciliation::CleanUp
        } else {
            Reconciliation::RollBack
        },
    }
}

/// The snapshot identity that a leftover staging directory is named after.
pub fn orphan_identity(name: &str) -> (r: Option<String>)
    ensures
        match r {
            Some(id) => name@ == ".restore-"@ + id@,
            None => !".restore-"@.is_prefix_of(name@),
        },
{
    if !starts_with(name, ".restore-") {
        return None;
    }
    let chars: Vec<char> = chars_of(name);
    let prefix: Vec<char> = chars_of(".restore-");
    let n: usize = prefix.len();
    let id: String = text_of(&chars, n, chars.len());
    assert(name@ =~= ".restore-"@ + id@);
    Some(id)
}

/// Where a swap stands.
#[derive(Debug, Clone, Copy, PartialEq, Eq, Structural)]
pub enum SwapStage {
    StopPersistence,
    MoveOld,
    RecordOldMoved,
    InstallNew,
    RecordNewMoved,
    Reload,
    RecordCommitted,
    /// The commit could not be recorded: the earlier phase is recorded again.
    RepairRecord,
    RollBack,
    CleanUp,
    Done,
    Failed,
}

/// What the record may show at a stage.
pub open spec fn is_recorded(stage: SwapStage, recorded: PhysicalRestorePhase) -> bool {
    match stage {
        SwapStage::StopPersistence | SwapStage::MoveOld | SwapStage::RecordOldMoved => recorded
            == PhysicalRestorePhase::Prepared,
        SwapStage::InstallNew | SwapStage::RecordNewMoved => recorded
            == PhysicalRestorePhase::OldMoved,
        SwapStage::Reload | SwapStage::RecordCommitted | SwapStage::RepairRecord => recorded
            == PhysicalRestorePhase::NewMoved,
        SwapStage::RollBack | SwapStage::Failed => recorded != PhysicalRestorePhase::Committed,
        SwapStage::CleanUp | SwapStage::Done => recorded == PhysicalRestorePhase::Committed,
    }
}

/// What the record shows after a stage that went well.
pub open spec fn recorded_after(
    stage: SwapStage,
    recorded: PhysicalRestorePhase,
) -> PhysicalRestorePhase {
    match stage {
        SwapStage::RecordOldMoved => PhysicalRestorePhase::OldMoved,
        SwapStage::RecordNewMoved | SwapStage::RepairRecord => PhysicalRestorePhase::NewMoved,
        SwapStage::RecordCommitted => PhysicalRestorePhase::Committed,
        _ => recorded,
    }
}

/// The stage after one that went well.
pub open spec fn stage_after(stage: SwapStage) -> SwapStage {
    match stage {
        SwapStage::StopPersistence => SwapStage::MoveOld,
        SwapStage::MoveOld => SwapStage::RecordOldMoved,
        SwapStage::RecordOldMoved => SwapStage::InstallNew,
        SwapStage::InstallNew => SwapStage::RecordNewMoved,
        SwapStage::RecordNewMoved => SwapStage::Reload,
        SwapStage::Reload => SwapStage::RecordCommitted,
        SwapStage::RecordCommitted => SwapStage::CleanUp,
        SwapStage::RepairRecord => SwapStage::RollBack,
        SwapStage::RollBack => SwapStage::Failed,
        SwapStage::CleanUp => SwapStage::Done,
        SwapStage::Done => SwapStage::Done,
        SwapStage::Failed => SwapStage::Failed,
    }
}

/// The stage after one that failed. A commit that was recorded stands, even
/// where cleaning up behind it fails.
pub open spec fn stage_after_failure(stage: SwapStage) -> SwapStage {
    match stage {
        SwapStage::RecordCommitted => SwapStage::RepairRecord,
        SwapStage::RepairRecord | SwapStage::RollBack | SwapStage::Failed => SwapStage::Failed,
        SwapStage::CleanUp | SwapStage::Done => SwapStage::Done,
        _ => SwapStage::RollBack,
    }
}

/// A failure and how it reads.
#[derive(Debug)]
pub struct SwapFailure {
    pub error: Error,
    /// The error as it is printed.
    pub text: String,
}

/// A swap in progress.
#[derive(Debug)]
pub struct RestoreSwap {
    pub stage: SwapStage,
    /// The last phase that was recorded.
    pub recorded: PhysicalRestorePhase,
    /// What went wrong first, if anything did.
    pub error: Option<Error>,
    /// How the failure to record the commit reads.
    pub commit_text: String,
}

/// The error that a failure leaves behind.
pub open spec fn kept_error(
    stage: SwapStage,
    held: Option<ErrorView>,
    commit_text: Seq<char>,
    error: ErrorView,
    text: Seq<char>,
) -> Option<ErrorView> {
    match stage {
        SwapStage::RecordCommitted => Some(
            ErrorView::Internal("physical restore commit publication failed: "@ + text),
        ),
        SwapStage::RepairRecord => Some(
            ErrorView::Internal(
                "restore commit failed ("@ + commit_text + ") and rollback-state repair failed ("@
                    + text + ")"@,
            ),
        ),
        SwapStage::RollBack | SwapStage::Failed | SwapStage::CleanUp | SwapStage::Done => held,
        _ => Some(error),
    }
}

pub open spec fn optional_error(error: Option<Error>) -> Option<ErrorView> {
    match error {
        Some(e) => Some(e@),
        None => None,
    }
}

impl RestoreSwap {
    /// The record is never behind nor ahead of the moves it stands for.
    pub open spec fn wf(self) -> bool {
        is_recorded(self.stage, self.recorded)
    }

    /// Starts once the prepared phase is recorded.
    pub fn new() -> (r: Self)
        ensures
            r.wf(),
            r.stage == SwapStage::StopPersistence,
            r.error is None,
            r.commit_text@.len() == 0,
    {
        RestoreSwap {
            stage: SwapStage::StopPersistence,
            recorded: PhysicalRestorePhase::Prepared,
            error: None,
            commit_text: String::new(),
        }
    }

    /// The current stage went well.
    pub fn succeeded(&mut self)
        requires
            old(self).wf(),
        ensures
            final(self).wf(),
            final(self).stage == stage_after(old(self).stage),
            final(self).recorded == recorded_after(old(self).stage, old(self).recorded),
            final(self).error == old(self).error,
            final(self).commit_text == old(self).commit_text,
    {
        match self.stage {
            SwapStage::RecordOldMoved => {
                self.recorded = PhysicalRestorePhase::OldMoved;
            },
            SwapStage::RecordNewMoved | SwapStage::RepairRecord => {
                self.recorded = PhysicalRestorePhase::NewMoved;
            },
            SwapStage::RecordCommitted => {
                self.recorded = PhysicalRestorePhase::Committed;
            },
            _ => {},
        }
        self.stage =
        match self.stage {
            SwapStage::StopPersistence => SwapStage::MoveOld,
            SwapStage::MoveOld => SwapStage::RecordOldMoved,
            SwapStage::RecordOldMoved => SwapStage::InstallNew,
            SwapStage::InstallNew => SwapStage::RecordNewMoved,
            SwapStage::RecordNewMoved => SwapStage::Reload,
            SwapStage::Reload => SwapStage::RecordCommitted,
            SwapStage::RecordCommitted => SwapStage::CleanUp,
            SwapStage::RepairRecord => SwapStage::RollBack,
            SwapStage::RollBack => SwapStage::Failed,
            SwapStage::CleanUp => SwapStage::Done,
            SwapStage::Done => SwapStage::Done,
            SwapStage::Failed => SwapStage::Failed,
        };
    }

    /// The current stage failed.
    pub fn failed(&mut self, failure: SwapFailure)
        requires
            old(self).wf(),
        ensures
            final(self).wf(),
            final(self).recorded == old(self).recorded,
            final(self).stage == stage_after_failure(old(self).stage),
            optional_error(final(self).error) == kept_error(
                old(self).stage,
                optional_error(old(self).error),
                old(self).commit_text@,
                failure.error@,
                failure.text@,
            ),
            final(self).commit_text@ == (if old(self).stage == SwapStage::RecordCommitted {
                failure.text@
            } else {
                old(self).commit_text@
            }),
    {
        match self.stage {
            SwapStage::RecordCommitted => {
                self.error =
                Some(
                    Error::Internal {
                        message: String::from_str(
                            "physical restore commit publication failed: ",
                        ).concat(failure.text.as_str()),
                    },
                );
                self.commit_text = failure.text;
                self.stage = SwapStage::RepairRecord;
            },
            SwapStage::RepairRecord => {
                self.error =
                Some(
                    Error::Internal {
                        message: String::from_str("restore commit failed (").concat(
                            self.commit_text.as_str(),
                        ).concat(") and rollback-state repair failed (").concat(
                            failure.text.as_str(),
                        ).concat(")"),
                    },
                );
                self.stage = SwapStage::Failed;
            },
            SwapStage::RollBack | SwapStage::Failed => {
                self.stage = SwapStage::Failed;
            },
            SwapStage::CleanUp | SwapStage::Done => {
                self.stage = SwapStage::Done;
            },
            _ => {
                self.error = Some(failure.error);
                self.stage = SwapStage::RollBack;
            },
        }
    }
}

/// How a rolled-back swap is reported: `error_text` is what went wrong first,
/// `rollback` the outcome of rolling back and reloading.
pub fn swap_physical_restore_failure(error_text: &str, rollback: Result<(), String>) -> (e: Error)
    ensures
        e@ == match rollback {
            Ok(()) => ErrorView::Internal(
                "physical restore failed and the previous generation was restored: "@
                    + error_text@,
            ),
            Err(text) => ErrorView::Internal(
                "physical restore failed ("@ + error_text@ + ") and rollback failed ("@ + text@
                    + ")"@,
            ),
        },
{
    match rollback {
        Ok(()) => Error::Internal {
            message: String::from_str(
                "physical restore failed and the previous generation was restored: ",
            ).concat(error_text),
        },
        Err(text) => Error::Internal {
            message: String::from_str("physical restore failed (").concat(error_text).concat(
                ") and rollback failed (",
            ).concat(text.as_str()).concat(")"),
        },
    }
}

/// Number of steps from the start of a swap.
pub open spec fn stage_rank(stage: SwapStage) -> int {
    match stage {
        SwapStage::StopPersistence => 0,
        SwapStage::MoveOld => 1,
        SwapStage::RecordOldMoved => 2,
        SwapStage::InstallNew => 3,
        SwapStage::RecordNewMoved => 4,
        SwapStage::Reload => 5,
        SwapStage::RecordCommitted => 6,
        SwapStage::RepairRecord => 7,
        SwapStage::RollBack => 8,
        SwapStage::CleanUp => 9,
        SwapStage::Done => 10,
        SwapStage::Failed => 10,
    }
}

/// A swap ends: every step moves on until it is done or failed.
pub proof fn law_swap_ends(stage: SwapStage)
    requires
        stage != SwapStage::Done,
        stage != SwapStage::Failed,
    ensures
        stage_rank(stage_after(stage)) > stage_rank(stage),
        stage_rank(stage_after_failure(stage)) > stage_rank(stage),
{
}

/// The only way to be done is through a recorded commit, and after one there
/// is no way to roll back: the next open keeps the new generation if and only
/// if the swap reported success or was interrupted behind its commit.
pub proof fn law_commit_decides_the_swap(stage: SwapStage, recorded: PhysicalRestorePhase)
    requires
        is_recorded(stage, recorded),
    ensures
        is_recorded(stage_after(stage), recorded_after(stage, recorded)),
        is_recorded(stage_after_failure(stage), recorded),
        stage == SwapStage::Done ==> recorded == PhysicalRestorePhase::Committed,
        stage == SwapStage::Failed ==> recorded != PhysicalRestorePhase::Committed,
        recorded == PhysicalRestorePhase::Committed ==> stage_after_failure(stage)
            == SwapStage::Done,
{
}

/// Nothing is moved before the record says so: the previous generation moves
/// aside after the prepared phase, the new one is installed after the previous
/// one is recorded as moved, and is opened after it is recorded as installed.
pub proof fn law_phase_precedes_moves(stage: SwapStage, recorded: PhysicalRestorePhase)
    requires
        is_recorded(stage, recorded),
    ensures
        stage == SwapStage::MoveOld ==> recorded == PhysicalRestorePhase::Prepared,
        stage == SwapStage::InstallNew ==> recorded == PhysicalRestorePhase::OldMoved,
        stage == SwapStage::Reload ==> recorded == PhysicalRestorePhase::NewMoved,
{
}

} // verus!
