//! Checkpoints: hot rows become segments, and the log gives way behind them.
//!
//! A checkpoint alternates decisions with sealing and publication. The
//! decisions stand here: whoever drives a checkpoint performs the action it
//! asks for and reports what came of it.
use crate::error::refusal;
use crate::error::Error;
use crate::error::ErrorView;
use crate::text::same_text;
use vstd::prelude::*;

verus! {

/// Where a checkpoint starts.
pub fn checkpoint_reason(force: bool) -> (r: &'static str)
    ensures
        r@ == if force {
            "forced_checkpoint"@
        } else {
            "scheduled_checkpoint"@
        },
{
    if force {
        "forced_checkpoint"
    } else {
        "scheduled_checkpoint"
    }
}

/// Whether small tables are sealed after all: a scheduled checkpoint that
/// left rows behind could never retire the log otherwise.
pub fn seals_stragglers(all_hot_empty: bool, force: bool) -> (r: bool)
    ensures
        r == (!all_hot_empty && !force),
{
    !all_hot_empty && !force
}

/// What a checkpoint does once commits are held off.
#[derive(Debug, Clone, Copy, PartialEq, Eq, Structural)]
pub enum CheckpointFence {
    /// All rows are in segments: the log may move on.
    Advance,
    /// Rows arrived meanwhile: the next checkpoint sees to them.
    Defer,
}

pub open spec fn unsealed_rows() -> ErrorView {
    ErrorView::Internal("forced checkpoint left committed hot rows unsealed"@)
}

pub open spec fn fence_decision(fenced: bool, all_hot_empty: bool, force: bool) -> Result<
    CheckpointFence,
    ErrorView,
> {
    if !fenced {
        Err(ErrorView::Internal("checkpoint timed out acquiring the commit fence"@))
    } else if all_hot_empty {
        Ok(CheckpointFence::Advance)
    } else if force {
        Err(unsealed_rows())
    } else {
        Ok(CheckpointFence::Defer)
    }
}

/// Decides on the log with commits held off. A forced checkpoint that cannot
/// advance says so.
pub fn judge_fence(fenced: bool, all_hot_empty: bool, force: bool) -> (r: Result<
    CheckpointFence,
    Error,
>)
    ensures
        match r {
            Ok(step) => fence_decision(fenced, all_hot_empty, force) == Ok::<
                CheckpointFence,
                ErrorView,
            >(step),
            Err(e) => fence_decision(fenced, all_hot_empty, force) == Err::<
                CheckpointFence,
                ErrorView,
            >(e@),
        },
{
    if !fenced {
        return Err(Error::internal("checkpoint timed out acquiring the commit fence"));
    }
    if all_hot_empty {
        return Ok(CheckpointFence::Advance);
    }
    if force {
        return Err(Error::internal("forced checkpoint left committed hot rows unsealed"));
    }
    Ok(CheckpointFence::Defer)
}

/// The log gives way only when no committed row is in memory alone.
pub proof fn law_log_advances_only_when_sealed(fenced: bool, all_hot_empty: bool, force: bool)
    ensures
        fence_decision(fenced, all_hot_empty, force) == Ok::<CheckpointFence, ErrorView>(
            CheckpointFence::Advance,
        ) <==> fenced && all_hot_empty,
{
}

/// How often a seal that lost to another publication is planned again.
pub const SEAL_STALE_REPLAN_LIMIT: usize = 2;

/// Whether a seal is planned again. Not where commits moved the boundary:
/// the checkpoint would silently take in newer rows.
pub fn replans_seal(
    replan: usize,
    retry_stale_publication: bool,
    stale_publication: bool,
    boundary_moved: bool,
) -> (r: bool)
    ensures
        r == (retry_stale_publication && stale_publication && !boundary_moved && replan
            < SEAL_STALE_REPLAN_LIMIT),
{
    retry_stale_publication && stale_publication && !boundary_moved && replan
        < SEAL_STALE_REPLAN_LIMIT
}

/// Why a checkpoint on demand cannot run.
pub fn force_checkpoint_gate(persistent: bool) -> (r: Result<(), Error>)
    ensures
        refusal(r) == (if persistent {
            None
        } else {
            Some(ErrorView::InvalidArgument("CHECKPOINT requires a persistent database"@))
        }),
{
    if !persistent {
        return Err(Error::invalid_argument("CHECKPOINT requires a persistent database"));
    }
    Ok(())
}

/// Whether a checkpoint on demand asks for a merge afterwards: it went well,
/// or sealed what it could.
pub fn force_checkpoint_cycle(outcome: &Result<(), Error>) -> (request_merge: bool)
    ensures
        request_merge == match outcome {
            Ok(()) => true,
            Err(e) => e@ == unsealed_rows(),
        },
{
    match outcome {
        Ok(()) => true,
        Err(Error::Internal { message }) => same_text(
            message.as_str(),
            "forced checkpoint left committed hot rows unsealed",
        ),
        Err(_) => false,
    }
}

/// What a checkpoint waits for.
#[derive(Debug, Clone, Copy, PartialEq, Eq, Structural)]
pub enum CheckpointPhase {
    Seal,
    /// Whether sealing left rows in memory.
    CountHot,
    /// Tables too small for an ordinary seal.
    SealStragglers,
    /// The exclusive commit fence, and a last look at the rows in memory.
    HoldCommits,
    /// The log position to move on to, with commits held off.
    Create,
    /// The log generation behind it.
    Prepare,
    /// The generation that starts there.
    Publish,
    /// The books.
    Finish,
    Done,
}

/// What a checkpoint wants done next. Commits are held off from the moment
/// the fence is taken until the books are closed.
#[derive(Debug, Clone, Copy, PartialEq, Eq, Structural)]
pub enum CheckpointAction {
    /// Seal hot rows; `all` passes over the thresholds.
    Seal { all: bool },
    CountHot,
    HoldCommits,
    CreateCheckpoint,
    PrepareRetention { checkpoint_lsn: u64 },
    PublishGeneration { checkpoint_lsn: u64, wal_generation: u64 },
    Finish { result_marker: u64 },
    Nothing,
}

/// What a seal came to.
#[derive(Debug, Clone, Copy, PartialEq, Eq, Structural)]
pub struct SealReport {
    /// Another publication came first.
    pub stale_publication: bool,
    /// Commits became visible meanwhile.
    pub boundary_moved: bool,
}

/// What came of an action.
#[derive(Debug)]
pub enum CheckpointEvent {
    Sealed(Result<SealReport, Error>),
    HotCounted { all_empty: bool },
    CommitsHeld { fenced: bool, all_empty: bool },
    /// The position, where the database has a log.
    Created(Option<Result<u64, Error>>),
    Prepared(Result<u64, Error>),
    Published(Result<(), Error>),
    Finished,
}

/// A checkpoint in progress.
#[derive(Debug)]
pub struct CheckpointRun {
    force: bool,
    phase: CheckpointPhase,
    replans: usize,
    checkpoint_lsn: u64,
    wal_generation: u64,
    end: Option<Result<u64, Error>>,
}

#[verifier::ext_equal]
pub struct CheckpointView {
    pub force: bool,
    pub phase: CheckpointPhase,
    /// Seals planned again so far.
    pub replans: usize,
    pub checkpoint_lsn: u64,
    pub wal_generation: u64,
    /// The log position that the checkpoint reports, or why it failed.
    pub end: Option<Result<u64, ErrorView>>,
}

impl View for CheckpointRun {
    type V = CheckpointView;

    closed spec fn view(&self) -> CheckpointView {
        CheckpointView {
            force: self.force,
            phase: self.phase,
            replans: self.replans,
            checkpoint_lsn: self.checkpoint_lsn,
            wal_generation: self.wal_generation,
            end: match self.end {
                None => None,
                Some(Ok(lsn)) => Some(Ok(lsn)),
                Some(Err(e)) => Some(Err(e@)),
            },
        }
    }
}

pub open spec fn started_checkpoint(force: bool) -> CheckpointView {
    CheckpointView {
        force,
        phase: CheckpointPhase::Seal,
        replans: 0,
        checkpoint_lsn: 0,
        wal_generation: 0,
        end: None,
    }
}

pub open spec fn failed_checkpoint(run: CheckpointView, error: ErrorView) -> CheckpointView {
    CheckpointView { phase: CheckpointPhase::Done, end: Some(Err(error)), ..run }
}

pub open spec fn at_phase(run: CheckpointView, phase: CheckpointPhase) -> CheckpointView {
    CheckpointView { phase, ..run }
}

/// What follows a seal.
pub open spec fn after_seal(run: CheckpointView, report: SealReport) -> CheckpointView {
    if run.force && report.stale_publication && !report.boundary_moved && run.replans
        < SEAL_STALE_REPLAN_LIMIT {
        CheckpointView { replans: (run.replans + 1) as usize, ..run }
    } else {
        at_phase(run, CheckpointPhase::CountHot)
    }
}

/// What follows an event. One that the checkpoint does not wait for changes
/// nothing.
pub open spec fn after_event(run: CheckpointView, event: CheckpointEvent) -> CheckpointView {
    match (run.phase, event) {
        (CheckpointPhase::Seal, CheckpointEvent::Sealed(r)) => match r {
            Err(e) => failed_checkpoint(run, e@),
            Ok(report) => after_seal(run, report),
        },
        (CheckpointPhase::CountHot, CheckpointEvent::HotCounted { all_empty }) => at_phase(
            run,
            if !all_empty && !run.force {
                CheckpointPhase::SealStragglers
            } else {
                CheckpointPhase::HoldCommits
            },
        ),
        (CheckpointPhase::SealStragglers, CheckpointEvent::Sealed(r)) => match r {
            Err(e) => failed_checkpoint(run, e@),
            Ok(_) => at_phase(run, CheckpointPhase::HoldCommits),
        },
        (
            CheckpointPhase::HoldCommits,
            CheckpointEvent::CommitsHeld { fenced, all_empty },
        ) => match fence_decision(fenced, all_empty, run.force) {
            Err(e) => failed_checkpoint(run, e),
            Ok(CheckpointFence::Advance) => at_phase(run, CheckpointPhase::Create),
            Ok(CheckpointFence::Defer) => at_phase(run, CheckpointPhase::Finish),
        },
        (CheckpointPhase::Create, CheckpointEvent::Created(created)) => match created {
            None => at_phase(run, CheckpointPhase::Finish),
            Some(Err(e)) => failed_checkpoint(run, e@),
            Some(Ok(lsn)) => CheckpointView {
                phase: if lsn > 0 {
                    CheckpointPhase::Prepare
                } else {
                    CheckpointPhase::Finish
                },
                checkpoint_lsn: lsn,
                ..run
            },
        },
        (CheckpointPhase::Prepare, CheckpointEvent::Prepared(r)) => match r {
            Err(e) => failed_checkpoint(run, e@),
            Ok(wal_generation) => CheckpointView {
                phase: CheckpointPhase::Publish,
                wal_generation,
                ..run
            },
        },
        (CheckpointPhase::Publish, CheckpointEvent::Published(r)) => match r {
            Err(e) => failed_checkpoint(run, e@),
            Ok(_) => at_phase(run, CheckpointPhase::Finish),
        },
        (CheckpointPhase::Finish, CheckpointEvent::Finished) => CheckpointView {
            phase: CheckpointPhase::Done,
            end: Some(Ok(run.checkpoint_lsn)),
            ..run
        },
        _ => run,
    }
}

/// What a checkpoint asks for.
pub open spec fn checkpoint_action(run: CheckpointView) -> CheckpointAction {
    match run.phase {
        CheckpointPhase::Seal => CheckpointAction::Seal { all: run.force },
        CheckpointPhase::CountHot => CheckpointAction::CountHot,
        CheckpointPhase::SealStragglers => CheckpointAction::Seal { all: true },
        CheckpointPhase::HoldCommits => CheckpointAction::HoldCommits,
        CheckpointPhase::Create => CheckpointAction::CreateCheckpoint,
        CheckpointPhase::Prepare => CheckpointAction::PrepareRetention {
            checkpoint_lsn: run.checkpoint_lsn,
        },
        CheckpointPhase::Publish => CheckpointAction::PublishGeneration {
            checkpoint_lsn: run.checkpoint_lsn,
            wal_generation: run.wal_generation,
        },
        CheckpointPhase::Finish => CheckpointAction::Finish { result_marker: run.checkpoint_lsn },
        CheckpointPhase::Done => CheckpointAction::Nothing,
    }
}

/// Starts a checkpoint: there is one only where the database has enabled
/// persistence. A forced one seals every hot row.
pub fn checkpoint_cycle_inner(persistence_enabled: bool, force: bool) -> (r: Option<CheckpointRun>)
    ensures
        match r {
            Some(run) => persistence_enabled && run@ == started_checkpoint(force),
            None => !persistence_enabled,
        },
{
    if !persistence_enabled {
        return None;
    }
    Some(
        CheckpointRun {
            force,
            phase: CheckpointPhase::Seal,
            replans: 0,
            checkpoint_lsn: 0,
            wal_generation: 0,
            end: None,
        },
    )
}

impl CheckpointRun {
    pub fn action(&self) -> (r: CheckpointAction)
        ensures
            r == checkpoint_action(self@),
    {
        match self.phase {
            CheckpointPhase::Seal => CheckpointAction::Seal { all: self.force },
            CheckpointPhase::CountHot => CheckpointAction::CountHot,
            CheckpointPhase::SealStragglers => CheckpointAction::Seal { all: true },
            CheckpointPhase::HoldCommits => CheckpointAction::HoldCommits,
            CheckpointPhase::Create => CheckpointAction::CreateCheckpoint,
            CheckpointPhase::Prepare => CheckpointAction::PrepareRetention {
                checkpoint_lsn: self.checkpoint_lsn,
            },
            CheckpointPhase::Publish => CheckpointAction::PublishGeneration {
                checkpoint_lsn: self.checkpoint_lsn,
                wal_generation: self.wal_generation,
            },
            CheckpointPhase::Finish => CheckpointAction::Finish {
                result_marker: self.checkpoint_lsn,
            },
            CheckpointPhase::Done => CheckpointAction::Nothing,
        }
    }

    fn fail(&mut self, error: Error)
        ensures
            final(self)@ == failed_checkpoint(old(self)@, error@),
    {
        self.phase = CheckpointPhase::Done;
        self.end = Some(Err(error));
    }

    /// Takes in what came of the last action and says what is next.
    pub fn advance(&mut self, event: CheckpointEvent) -> (r: CheckpointAction)
        ensures
            final(self)@ == after_event(old(self)@, event),
            r == checkpoint_action(final(self)@),
    {
        match (self.phase, event) {
            (CheckpointPhase::Seal, CheckpointEvent::Sealed(r)) => match r {
                Err(e) => self.fail(e),
                Ok(report) => {
                    if replans_seal(
                        self.replans,
                        self.force,
                        report.stale_publication,
                        report.boundary_moved,
                    ) {
                        self.replans = self.replans + 1;
                    } else {
                        self.phase = CheckpointPhase::CountHot;
                    }
                },
            },
            (CheckpointPhase::CountHot, CheckpointEvent::HotCounted { all_empty }) => {
                self.phase = if seals_stragglers(all_empty, self.force) {
                    CheckpointPhase::SealStragglers
                } else {
                    CheckpointPhase::HoldCommits
                };
            },
            (CheckpointPhase::SealStragglers, CheckpointEvent::Sealed(r)) => match r {
                Err(e) => self.fail(e),
                Ok(_) => {
                    self.phase = CheckpointPhase::HoldCommits;
                },
            },
            (
                CheckpointPhase::HoldCommits,
                CheckpointEvent::CommitsHeld { fenced, all_empty },
            ) => match judge_fence(fenced, all_empty, self.force) {
                Err(e) => self.fail(e),
                Ok(CheckpointFence::Advance) => {
                    self.phase = CheckpointPhase::Create;
                },
                Ok(CheckpointFence::Defer) => {
                    self.phase = CheckpointPhase::Finish;
                },
            },
            (CheckpointPhase::Create, CheckpointEvent::Created(created)) => match created {
                None => {
                    self.phase = CheckpointPhase::Finish;
                },
                Some(Err(e)) => self.fail(e),
                Some(Ok(lsn)) => {
                    self.checkpoint_lsn = lsn;
                    self.phase = if lsn > 0 {
                        CheckpointPhase::Prepare
                    } else {
                        CheckpointPhase::Finish
                    };
                },
            },
            (CheckpointPhase::Prepare, CheckpointEvent::Prepared(r)) => match r {
                Err(e) => self.fail(e),
                Ok(wal_generation) => {
                    self.wal_generation = wal_generation;
                    self.phase = CheckpointPhase::Publish;
                },
            },
            (CheckpointPhase::Publish, CheckpointEvent::Published(r)) => match r {
                Err(e) => self.fail(e),
                Ok(_) => {
                    self.phase = CheckpointPhase::Finish;
                },
            },
            (CheckpointPhase::Finish, CheckpointEvent::Finished) => {
                self.phase = CheckpointPhase::Done;
                self.end = Some(Ok(self.checkpoint_lsn));
            },
            _ => {},
        }
        self.action()
    }

    /// What the checkpoint came to, once it is done.
    pub fn outcome(self) -> (r: Option<Result<u64, Error>>)
        ensures
            match r {
                None => self@.end is None,
                Some(Ok(lsn)) => self@.end == Some(Ok::<u64, ErrorView>(lsn)),
                Some(Err(e)) => self@.end == Some(Err::<u64, ErrorView>(e@)),
            },
    {
        self.end
    }
}

/// The log is about to give way.
pub open spec fn moves_log(phase: CheckpointPhase) -> bool {
    phase == CheckpointPhase::Create || phase == CheckpointPhase::Prepare || phase
        == CheckpointPhase::Publish
}

/// No position is known before the log was asked for one, and an end only
/// comes with the last phase.
pub open spec fn checkpoint_wf(run: CheckpointView) -> bool {
    &&& run.replans <= SEAL_STALE_REPLAN_LIMIT
    &&& run.end is Some <==> run.phase == CheckpointPhase::Done
    &&& match run.phase {
        CheckpointPhase::Seal
        | CheckpointPhase::CountHot
        | CheckpointPhase::SealStragglers
        | CheckpointPhase::HoldCommits
        | CheckpointPhase::Create => run.checkpoint_lsn == 0,
        CheckpointPhase::Prepare | CheckpointPhase::Publish => run.checkpoint_lsn > 0,
        CheckpointPhase::Finish | CheckpointPhase::Done => true,
    }
}

/// A started checkpoint is sound and stays so.
pub proof fn law_checkpoint_stays_sound(
    force: bool,
    run: CheckpointView,
    event: CheckpointEvent,
)
    requires
        checkpoint_wf(run),
    ensures
        checkpoint_wf(started_checkpoint(force)),
        checkpoint_wf(after_event(run, event)),
{
}

/// The log only gives way after all rows were found in segments while no
/// commit could add to them.
pub proof fn law_checkpoint_moves_log_behind_sealed_rows(
    run: CheckpointView,
    event: CheckpointEvent,
)
    requires
        checkpoint_wf(run),
        !moves_log(run.phase),
        moves_log(after_event(run, event).phase),
    ensures
        run.phase == CheckpointPhase::HoldCommits,
        event == (CheckpointEvent::CommitsHeld { fenced: true, all_empty: true }),
{
}

/// A checkpoint that reports a log position has published the generation
/// that starts there.
pub proof fn law_reported_checkpoint_is_published(run: CheckpointView, event: CheckpointEvent)
    requires
        checkpoint_wf(run),
        run.phase != CheckpointPhase::Finish,
        run.phase != CheckpointPhase::Done,
        after_event(run, event).phase == CheckpointPhase::Finish,
        after_event(run, event).checkpoint_lsn > 0,
    ensures
        run.phase == CheckpointPhase::Publish,
        event matches CheckpointEvent::Published(Ok(_)),
        checkpoint_action(run) == (CheckpointAction::PublishGeneration {
            checkpoint_lsn: after_event(run, event).checkpoint_lsn,
            wal_generation: run.wal_generation,
        }),
{
}

/// Steps that a checkpoint may still take.
pub open spec fn checkpoint_steps_left(run: CheckpointView) -> int {
    match run.phase {
        CheckpointPhase::Seal => 8 + SEAL_STALE_REPLAN_LIMIT - run.replans,
        CheckpointPhase::CountHot => 7,
        CheckpointPhase::SealStragglers => 6,
        CheckpointPhase::HoldCommits => 5,
        CheckpointPhase::Create => 4,
        CheckpointPhase::Prepare => 3,
        CheckpointPhase::Publish => 2,
        CheckpointPhase::Finish => 1,
        CheckpointPhase::Done => 0,
    }
}

/// A checkpoint ends: every event that it waits for brings it closer.
pub proof fn law_checkpoint_ends(run: CheckpointView, event: CheckpointEvent)
    requires
        checkpoint_wf(run),
    ensures
        after_event(run, event) == run || 0 <= checkpoint_steps_left(after_event(run, event))
            < checkpoint_steps_left(run),
{
}

} // verus!
