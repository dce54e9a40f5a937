//! The steps of one compaction job, from admission to its last ledger entry.
//!
//! A job alternates decisions with work on disk. The decisions stand here:
//! whoever drives the job performs the action it asks for and reports what
//! came of it.
use crate::compaction::cooldown::is_recorded;
use crate::compaction::cooldown::kept;
use crate::compaction::cooldown::CompactionRetryCooldown;
use crate::compaction::cooldown::CompactionRetryJob;
use crate::compaction::job::admission_failure;
use crate::compaction::job::indexed_outputs;
use crate::compaction::job::is_abort;
use crate::compaction::job::liveness_failure;
use crate::compaction::job::output_bytes;
use crate::compaction::job::output_failure;
use crate::compaction::job::output_rows;
use crate::compaction::job::output_totals;
use crate::compaction::job::publication_failure;
use crate::compaction::job::reason_or;
use crate::compaction::job::reclaimed;
use crate::compaction::job::JobFailure;
use crate::compaction::job::OutputTotals;
use crate::compaction::job::StagedOutput;
use crate::compaction::abort::is_stale;
use crate::compaction::abort::stale_reason;
use crate::compaction::merge::accounted_read_bytes;
use crate::compaction::merge::chunk_rows;
use crate::compaction::merge::compaction_chunk_rows;
use crate::compaction::merge::id_streams;
use crate::compaction::merge::is_accounting_point;
use crate::compaction::merge::is_merge_of;
use crate::compaction::merge::lemma_exhausted_walk_is_merge;
use crate::compaction::merge::lemma_walk_in_range;
use crate::compaction::merge::read_bytes_so_far;
use crate::compaction::merge::streams_ascend;
use crate::compaction::merge::unencodable_survivor;
use crate::compaction::merge::MergeStep;
use crate::compaction::merge::MergeWalk;
use crate::compaction::plan::SegmentVolume;
use crate::compaction::row_ref::unencodable_error;
use crate::compaction::row_ref::CompactionRowRef;
use crate::compaction::row_ref::ROW_GROUP_SIZE;
use crate::error::Error;
use crate::error::ErrorView;
use crate::model::option_view;
use crate::num::monus;
use crate::num::sat64;
use crate::runtime::cost::counts_after_failed;
use crate::runtime::cost::counts_after_generated;
use crate::runtime::cost::counts_after_invalidated;
use crate::runtime::cost::counts_after_published;
use crate::runtime::cost::kept_reason;
use crate::runtime::cost::reasons_after_invalidation;
use crate::runtime::cost::CompactionCostJobGuard;
use crate::runtime::cost::CompactionCounts;
use crate::runtime::cost::CostReasons;
use crate::runtime::cost::EngineCompactionCostState;
use rustc_hash::FxHashMap;
use vstd::prelude::*;
use vstd::string::StringExecFns;

verus! {

/// What a job waits for.
#[derive(Debug, Clone, Copy, PartialEq, Eq, Structural)]
pub enum JobPhase {
    /// A private staging area.
    Begin,
    /// Disk space for the largest output.
    Reserve,
    Headroom,
    /// The first spool of row references.
    Spool,
    /// The accounting of what was read so far.
    Account,
    /// A row reference in the spool.
    Append,
    /// Outputs of a full chunk.
    StageChunk,
    NextSpool,
    /// The accounting of the whole input.
    FinalRead,
    /// Outputs of the last chunk.
    StageLast,
    /// Proof that the inputs are still current.
    Live,
    /// The same under the publication fences.
    Fence,
    Publish,
    /// The runtime topology.
    Topology,
    /// The runtime tombstones.
    Tombstones,
    /// The confirmation of published tombstones.
    Snapshot,
    Done,
}

/// What a job wants done next.
#[derive(Debug)]
pub enum JobAction {
    BeginPublication,
    ReserveDisk,
    CheckHeadroom,
    CreateSpool,
    AccountRead { bytes: u64 },
    Append { row_ref: CompactionRowRef },
    StageRows,
    CheckLive,
    /// Reserve runtime identities, take the fences and check again.
    EnterFence { runtime_ids: usize, totals: OutputTotals, reclaimed_rows: u64, reclaimed_bytes: u64 },
    Publish,
    InstallTopology,
    InstallTombstones,
    ConfirmTombstones,
    Finish,
}

/// What came of an action.
#[derive(Debug)]
pub enum JobEvent {
    Outcome(Result<(), Error>),
    /// An outcome whose error is reported by its text.
    Text(Result<(), String>),
    Staged(Result<Vec<StagedOutput>, String>),
    /// How many segments were published.
    Published(Result<usize, Error>),
    /// Whether the installed tombstones are the planned ones, and whether
    /// they changed.
    Installed { matches: bool, changed: bool },
    /// Whether the tombstones to confirm are the planned ones, where there
    /// are any.
    Snapshot(Option<bool>),
}

/// How the ledgers enter a finished job.
#[derive(Debug, Clone, Copy, PartialEq, Eq, Structural)]
pub enum EndKind {
    Published,
    /// Lost the publication race.
    Stale,
    Invalidated,
    Failed,
    /// Ended before a reason was known.
    Unclassified,
}

#[derive(Debug)]
pub struct JobEnd {
    pub kind: EndKind,
    pub reason: String,
    pub error: Option<Error>,
    /// The output of the job is known.
    pub generated: bool,
}

#[verifier::ext_equal]
pub struct EndView {
    pub kind: EndKind,
    pub reason: Seq<char>,
    pub error: Option<ErrorView>,
    pub generated: bool,
}

impl View for JobEnd {
    type V = EndView;

    open spec fn view(&self) -> EndView {
        EndView {
            kind: self.kind,
            reason: self.reason@,
            error: match self.error {
                Some(e) => Some(e@),
                None => None,
            },
            generated: self.generated,
        }
    }
}

/// What a job was planned with.
#[derive(Debug)]
pub struct JobInputs {
    pub table: String,
    /// Inputs, newest first.
    pub volumes: Vec<SegmentVolume>,
    pub tombstones: FxHashMap<i64, u64>,
    pub boundary: Option<u64>,
    pub input_rows: u64,
    pub input_bytes: u64,
    pub target_rows: usize,
}

impl JobInputs {
    pub open spec fn streams(self) -> Seq<Seq<i64>> {
        id_streams(self.volumes@)
    }

    pub open spec fn named(self, before: Seq<char>, after: Seq<char>) -> Seq<char> {
        before + self.table@ + after
    }

    fn message(&self, before: &str, after: &str) -> (text: String)
        ensures
            text@ == self.named(before@, after@),
    {
        String::from_str(before).concat(self.table.as_str()).concat(after)
    }
}

/// A compaction job in progress.
pub struct CompactionRun {
    inputs: JobInputs,
    phase: JobPhase,
    walk: MergeWalk,
    examined: u64,
    buffered: usize,
    pending: Option<CompactionRowRef>,
    outputs: Vec<StagedOutput>,
    end: Option<JobEnd>,
    staged: Ghost<nat>,
}

#[verifier::ext_equal]
pub struct RunView {
    pub phase: JobPhase,
    /// Identities examined by the merge.
    pub seen: Seq<i64>,
    /// References to the rows that survive.
    pub kept: Seq<CompactionRowRef>,
    pub examined: u64,
    /// References in the current spool.
    pub buffered: usize,
    /// References handed to staging.
    pub staged: nat,
    pub pending: Option<CompactionRowRef>,
    pub outputs: Seq<StagedOutput>,
    pub end: Option<EndView>,
}

impl View for CompactionRun {
    type V = RunView;

    closed spec fn view(&self) -> RunView {
        RunView {
            phase: self.phase,
            seen: self.walk.seen(),
            kept: self.walk.kept(),
            examined: self.examined,
            buffered: self.buffered,
            staged: self.staged@,
            pending: self.pending,
            outputs: self.outputs@,
            end: option_view(self.end),
        }
    }
}

/// The job has merged all its input.
pub open spec fn has_merged(phase: JobPhase) -> bool {
    match phase {
        JobPhase::FinalRead
        | JobPhase::StageLast
        | JobPhase::Live
        | JobPhase::Fence
        | JobPhase::Publish
        | JobPhase::Topology
        | JobPhase::Tombstones
        | JobPhase::Snapshot => true,
        _ => false,
    }
}

/// The job has handed every surviving row to staging.
pub open spec fn has_staged(phase: JobPhase) -> bool {
    has_merged(phase) && phase != JobPhase::FinalRead && phase != JobPhase::StageLast
}

pub open spec fn before_merge(phase: JobPhase) -> bool {
    match phase {
        JobPhase::Begin | JobPhase::Reserve | JobPhase::Headroom | JobPhase::Spool => true,
        _ => false,
    }
}

/// Counters and spool agree with the merge.
pub open spec fn counts_agree(run: RunView, chunk: int) -> bool {
    &&& run.examined == sat64(
        run.seen.len() + if run.phase == JobPhase::Account {
            1int
        } else {
            0
        },
    )
    &&& before_merge(run.phase) ==> run.seen.len() == 0 && run.kept.len() == 0
    &&& run.pending is Some <==> run.phase == JobPhase::Append
    &&& run.pending matches Some(r) ==> run.kept.len() > 0 && run.kept.last() == r
    &&& run.staged + run.buffered + (if run.phase == JobPhase::Append {
        1int
    } else {
        0
    }) == run.kept.len()
    &&& if run.phase == JobPhase::StageChunk {
        run.buffered == chunk
    } else {
        run.buffered < chunk
    }
    &&& run.phase == JobPhase::NextSpool ==> run.buffered == 0
    &&& has_staged(run.phase) ==> run.buffered == 0
    &&& run.phase == JobPhase::StageLast ==> run.buffered > 0
    &&& run.end is None
}

impl CompactionRun {
    pub closed spec fn plan(self) -> JobInputs {
        self.inputs
    }

    /// The merge agrees with the inputs, and the counters with the merge.
    pub closed spec fn wf(self) -> bool {
        let inputs = self.inputs;
        if self.phase == JobPhase::Done {
            self.end is Some
        } else {
            &&& self.walk.wf(inputs.streams(), inputs.tombstones@, inputs.boundary)
            &&& counts_agree(self@, chunk_rows(inputs.target_rows))
            &&& has_merged(self.phase) ==> self.walk.is_exhausted(inputs.streams())
            &&& self.phase == JobPhase::Account ==> !self.walk.is_exhausted(inputs.streams())
        }
    }

    pub fn new(inputs: JobInputs) -> (run: Self)
        requires
            streams_ascend(inputs.streams()),
        ensures
            run.wf(),
            run.plan() == inputs,
            run@ == (RunView {
                phase: JobPhase::Begin,
                seen: Seq::empty(),
                kept: Seq::empty(),
                examined: 0,
                buffered: 0,
                staged: 0,
                pending: None,
                outputs: Seq::empty(),
                end: None,
            }),
    {
        let walk = MergeWalk::new(&inputs.volumes, &inputs.tombstones, inputs.boundary);
        let chunk: usize = compaction_chunk_rows(inputs.target_rows);
        assert(chunk > 0);
        let run = CompactionRun {
            inputs,
            phase: JobPhase::Begin,
            walk,
            examined: 0,
            buffered: 0,
            pending: None,
            outputs: Vec::new(),
            end: None,
            staged: Ghost(0),
        };
        assert(run@.seen =~= Seq::<i64>::empty());
        assert(run@.kept =~= Seq::<CompactionRowRef>::empty());
        run
    }

    pub fn phase(&self) -> (r: JobPhase)
        ensures
            r == self@.phase,
    {
        self.phase
    }
}

/// A job that ended.
pub open spec fn ends(
    before: RunView,
    after: RunView,
    kind: EndKind,
    error: Option<ErrorView>,
    generated: bool,
) -> bool {
    &&& after.end is Some
    &&& after.end->0.kind == kind
    &&& after.end->0.error == error
    &&& after.end->0.generated == generated
    &&& after == (RunView { phase: JobPhase::Done, pending: None, end: after.end, ..before })
}

/// Merging or staging failed.
pub open spec fn write_fails(before: RunView, after: RunView, error: ErrorView) -> bool {
    &&& ends(
        before,
        after,
        if is_abort(error) {
            EndKind::Invalidated
        } else {
            EndKind::Failed
        },
        Some(error),
        true,
    )
    &&& reason_or(error, "output_write_failed"@, after.end->0.reason)
}

/// The engine re-checks its budgets at this many examined rows.
pub open spec fn is_checkpoint(examined: int) -> bool {
    examined % ROW_GROUP_SIZE as int == 0
}

/// No budget check falls into the range, ends included.
pub open spec fn no_checkpoint(from: int, to: int) -> bool {
    forall|n: int| from <= n <= to ==> !#[trigger] is_checkpoint(n)
}

/// The merge went on from `before`, which waits for nothing, up to the first
/// row to append, the first budget check or the end of the input.
pub open spec fn walks(inputs: JobInputs, before: RunView, after: RunView) -> bool {
    let start = before.examined + 1;
    &&& before.seen.is_prefix_of(after.seen) || after.phase == JobPhase::Done
    &&& match after.phase {
        JobPhase::FinalRead => {
            &&& after == (RunView {
                phase: JobPhase::FinalRead,
                seen: after.seen,
                examined: after.examined,
                ..before
            })
            &&& no_checkpoint(start, after.examined as int)
        },
        JobPhase::Account => {
            &&& after == (RunView {
                phase: JobPhase::Account,
                seen: after.seen,
                examined: after.examined,
                ..before
            })
            &&& no_checkpoint(start, after.examined - 1)
            &&& is_checkpoint(after.examined as int)
        },
        JobPhase::Append => {
            &&& after.pending is Some
            &&& after == (RunView {
                phase: JobPhase::Append,
                seen: after.seen,
                examined: after.examined,
                pending: after.pending,
                kept: before.kept.push(after.pending->0),
                ..before
            })
            &&& no_checkpoint(start, after.examined as int)
        },
        JobPhase::Done => reference_fails(inputs, before, after),
        _ => false,
    }
}

/// A surviving row could not be referenced.
pub open spec fn reference_fails(inputs: JobInputs, before: RunView, after: RunView) -> bool {
    exists|v: int, i: int, row_id: i64|
        {
            &&& #[trigger] unencodable_survivor(
                inputs.streams(),
                inputs.tombstones@,
                inputs.boundary,
                v,
                i,
                row_id,
            )
            &&& unencodable_error(v, i) matches ErrorView::Internal(text) && write_fails(
                RunView { seen: after.seen, kept: after.kept, examined: after.examined, ..before },
                after,
                ErrorView::Internal(
                    inputs.named(
                        "failed to build compacted row reference for '"@,
                        "': "@ + text,
                    ),
                ),
            )
        }
}

proof fn lemma_checkpoint_free_step(from: int, to: int)
    requires
        no_checkpoint(from, to - 1),
        !is_checkpoint(to),
    ensures
        no_checkpoint(from, to),
{
    assert forall|n: int| from <= n <= to implies !#[trigger] is_checkpoint(n) by {
        if n < to {
        }
    }
}

impl CompactionRun {
    /// Everything but the phase is as it is between two rows, with `ahead`
    /// rows counted and not yet taken.
    closed spec fn between_rows(self, ahead: int) -> bool {
        let inputs = self.inputs;
        &&& self.walk.wf(inputs.streams(), inputs.tombstones@, inputs.boundary)
        &&& self.examined == sat64(self.walk.seen().len() + ahead)
        &&& self.pending is None
        &&& self.end is None
        &&& self.staged@ + self.buffered == self.walk.kept().len()
        &&& self.buffered < chunk_rows(inputs.target_rows)
    }

    /// Records how the job ended.
    fn stop(
        &mut self,
        kind: EndKind,
        reason: String,
        error: Option<Error>,
        generated: bool,
    )
        ensures
            final(self).wf(),
            final(self).inputs == old(self).inputs,
            final(self).walk == old(self).walk,
            ends(
                old(self)@,
                final(self)@,
                kind,
                (match error {
                    Some(e) => Some(e@),
                    None => None,
                }),
                generated,
            ),
            final(self)@.end->0.reason == reason@,
    {
        self.phase = JobPhase::Done;
        self.pending = None;
        self.end = Some(JobEnd { kind, reason, error, generated });
    }

    fn stop_output(&mut self, error: Error)
        ensures
            final(self).wf(),
            final(self).inputs == old(self).inputs,
            final(self).walk == old(self).walk,
            write_fails(old(self)@, final(self)@, error@),
    {
        let failure: JobFailure = output_failure(&error);
        let kind: EndKind = if failure.invalidated {
            EndKind::Invalidated
        } else {
            EndKind::Failed
        };
        self.stop(kind, failure.reason, Some(error), true);
    }

    /// Takes the row that was counted. Tells whether the job now waits for
    /// something.
    fn take_row(&mut self) -> (stopped: bool)
        requires
            old(self).between_rows(1),
            !old(self).walk.is_exhausted(old(self).inputs.streams()),
        ensures
            final(self).plan() == old(self).plan(),
            0 <= final(self).walk.left(final(self).inputs.streams()) < old(self).walk.left(
                old(self).inputs.streams(),
            ),
            !stopped ==> {
                &&& final(self).between_rows(0)
                &&& final(self)@ == (RunView { seen: final(self)@.seen, ..old(self)@ })
                &&& old(self)@.seen.is_prefix_of(final(self)@.seen)
            },
            stopped ==> {
                &&& final(self).wf()
                &&& final(self)@.phase == JobPhase::Append || final(self)@.phase == JobPhase::Done
                &&& final(self)@.phase == JobPhase::Append ==> {
                    &&& final(self)@.pending is Some
                    &&& old(self)@.seen.is_prefix_of(final(self)@.seen)
                    &&& final(self)@ == (RunView {
                        phase: JobPhase::Append,
                        seen: final(self)@.seen,
                        pending: final(self)@.pending,
                        kept: old(self)@.kept.push(final(self)@.pending->0),
                        ..old(self)@
                    })
                }
                &&& final(self)@.phase == JobPhase::Done ==> reference_fails(
                    old(self).plan(),
                    old(self)@,
                    final(self)@,
                )
            },
    {
        let ghost before = self@;
        let ghost inputs = self.inputs;
        match self.walk.take(
            &self.inputs.volumes,
            &self.inputs.tombstones,
            self.inputs.boundary,
        ) {
            MergeStep::Exhausted => {
                assert(false);
                true
            },
            MergeStep::Dropped => {
                assert(self@.seen.drop_last() =~= before.seen);
                assert(before.seen.is_prefix_of(self@.seen));
                false
            },
            MergeStep::Kept(row_ref) => {
                self.pending = Some(row_ref);
                self.phase = JobPhase::Append;
                assert(before.seen.is_prefix_of(self@.seen));
                true
            },
            MergeStep::Unencodable(error) => {
                let text: String = match error {
                    Error::Internal { message } => message,
                    _ => String::from_str(""),
                };
                let ghost mid = self@;
                let after: String = String::from_str("': ").concat(text.as_str());
                let message: String = self.inputs.message(
                    "failed to build compacted row reference for '",
                    after.as_str(),
                );
                self.stop_output(Error::Internal { message });
                proof {
                    let (v, i, row_id) = choose|v: int, i: int, row_id: i64|
                        {
                            &&& #[trigger] unencodable_survivor(
                                inputs.streams(),
                                inputs.tombstones@,
                                inputs.boundary,
                                v,
                                i,
                                row_id,
                            )
                            &&& error@ == unencodable_error(v, i)
                        };
                    assert(mid == (RunView {
                        seen: self@.seen,
                        kept: self@.kept,
                        examined: self@.examined,
                        ..before
                    }));
                    assert(reference_fails(inputs, before, self@));
                }
                true
            },
        }
    }

    /// Goes on with the merge until the job waits for something.
    fn walk_on(&mut self)
        requires
            old(self).between_rows(0),
        ensures
            final(self).wf(),
            final(self).plan() == old(self).plan(),
            walks(old(self).plan(), old(self)@, final(self)@),
    {
        let ghost before = self@;
        let ghost inputs = self.inputs;
        loop
            invariant
                self.between_rows(0),
                self.inputs == inputs,
                inputs == old(self).inputs,
                before == old(self)@,
                before.seen.is_prefix_of(self@.seen),
                before.examined <= self@.examined,
                self@ == (RunView { seen: self@.seen, examined: self@.examined, ..before }),
                no_checkpoint(before.examined + 1, self@.examined as int),
            decreases self.walk.left(inputs.streams()),
        {
            proof {
                lemma_walk_in_range(
                    self.walk,
                    inputs.streams(),
                    inputs.tombstones@,
                    inputs.boundary,
                );
            }
            if !self.walk.has_next(&self.inputs.volumes) {
                self.phase = JobPhase::FinalRead;
                return;
            }
            let ghost counted = self@.examined;
            self.examined = self.examined.saturating_add(1);
            if is_accounting_point(self.examined) {
                self.phase = JobPhase::Account;
                assert(is_checkpoint(self@.examined as int));
                return;
            }
            proof {
                if self@.examined > counted {
                    lemma_checkpoint_free_step(before.examined + 1, self@.examined as int);
                }
            }
            if self.take_row() {
                return;
            }
        }
    }
}

/// What a job in a state asks for.
pub open spec fn asks(inputs: JobInputs, run: RunView, action: JobAction) -> bool {
    match run.phase {
        JobPhase::Begin => action == JobAction::BeginPublication,
        JobPhase::Reserve => action == JobAction::ReserveDisk,
        JobPhase::Headroom => action == JobAction::CheckHeadroom,
        JobPhase::Spool | JobPhase::NextSpool => action == JobAction::CreateSpool,
        JobPhase::Account => action == JobAction::AccountRead {
            bytes: read_bytes_so_far(
                inputs.input_bytes,
                run.examined,
                inputs.input_rows,
            ) as u64,
        },
        JobPhase::Append => action == JobAction::Append { row_ref: run.pending->0 },
        JobPhase::StageChunk | JobPhase::StageLast => action == JobAction::StageRows,
        JobPhase::FinalRead => action == JobAction::AccountRead { bytes: inputs.input_bytes },
        JobPhase::Live => action == JobAction::CheckLive,
        JobPhase::Fence => {
            let wrote = run.outputs.len() > 0;
            let rows = output_rows(run.outputs);
            let bytes = output_bytes(run.outputs);
            action == JobAction::EnterFence {
                runtime_ids: run.outputs.len() as usize,
                totals: OutputTotals {
                    rows: rows as u64,
                    bytes: bytes as u64,
                    posting_outputs: indexed_outputs(run.outputs) as u64,
                },
                reclaimed_rows: (if wrote {
                    monus(inputs.input_rows as int, rows)
                } else {
                    inputs.input_rows as int
                }) as u64,
                reclaimed_bytes: (if wrote {
                    monus(inputs.input_bytes as int, bytes)
                } else {
                    inputs.input_bytes as int
                }) as u64,
            }
        },
        JobPhase::Publish => action == JobAction::Publish,
        JobPhase::Topology => action == JobAction::InstallTopology,
        JobPhase::Tombstones => action == JobAction::InstallTombstones,
        JobPhase::Snapshot => action == JobAction::ConfirmTombstones,
        JobPhase::Done => action == JobAction::Finish,
    }
}

pub open spec fn at(run: RunView, phase: JobPhase) -> RunView {
    RunView { phase, ..run }
}

/// The budgets refused the job.
pub open spec fn admission_fails(before: RunView, after: RunView, error: ErrorView) -> bool {
    &&& ends(before, after, EndKind::Invalidated, Some(error), false)
    &&& reason_or(error, "budget_admission_failed"@, after.end->0.reason)
}

/// The inputs are no longer current.
pub open spec fn liveness_fails(before: RunView, after: RunView, error: ErrorView) -> bool {
    &&& ends(before, after, EndKind::Invalidated, Some(error), true)
    &&& reason_or(error, "prepublication_cancelled"@, after.end->0.reason)
}

/// The physical publication took place and what follows it went wrong.
pub open spec fn install_fails(
    before: RunView,
    after: RunView,
    reason: Seq<char>,
    message: Seq<char>,
) -> bool {
    &&& ends(before, after, EndKind::Failed, Some(ErrorView::Internal(message)), true)
    &&& after.end->0.reason == reason
}

pub open spec fn succeeds(before: RunView, after: RunView) -> bool {
    ends(before, after, EndKind::Published, None, true)
}

/// What an event makes of a state. An event that the state does not wait for
/// changes nothing.
pub open spec fn follows(
    inputs: JobInputs,
    before: RunView,
    event: JobEvent,
    after: RunView,
) -> bool {
    match (before.phase, event) {
        (JobPhase::Begin, JobEvent::Outcome(r)) => match r {
            Ok(_) => after == at(before, JobPhase::Reserve),
            Err(e) => ends(before, after, EndKind::Unclassified, Some(e@), false),
        },
        (JobPhase::Reserve, JobEvent::Outcome(r)) => match r {
            Ok(_) => after == at(before, JobPhase::Headroom),
            Err(e) => admission_fails(before, after, e@),
        },
        (JobPhase::Headroom, JobEvent::Outcome(r)) => match r {
            Ok(_) => after == at(before, JobPhase::Spool),
            Err(e) => admission_fails(before, after, e@),
        },
        (JobPhase::Spool, JobEvent::Text(r)) => match r {
            Ok(_) => walks(inputs, before, after),
            Err(text) => ends(
                before,
                after,
                EndKind::Unclassified,
                Some(
                    ErrorView::Internal(
                        inputs.named(
                            "failed to create compacted row ref spool for '"@,
                            "': "@ + text@,
                        ),
                    ),
                ),
                false,
            ),
        },
        (JobPhase::Account, JobEvent::Outcome(r)) => match r {
            Ok(_) => walks(inputs, before, after),
            Err(e) => write_fails(before, after, e@),
        },
        (JobPhase::Append, JobEvent::Text(r)) => match r {
            Ok(_) => {
                let appended = RunView {
                    pending: None,
                    buffered: (before.buffered + 1) as usize,
                    ..before
                };
                if appended.buffered >= chunk_rows(inputs.target_rows) {
                    after == at(appended, JobPhase::StageChunk)
                } else {
                    walks(inputs, appended, after)
                }
            },
            Err(text) => write_fails(
                before,
                after,
                ErrorView::Internal(
                    inputs.named(
                        "failed to append compacted row reference for '"@,
                        "': "@ + text@,
                    ),
                ),
            ),
        },
        (JobPhase::StageChunk, JobEvent::Staged(r)) => match r {
            Ok(outputs) => after == (RunView {
                phase: JobPhase::NextSpool,
                outputs: before.outputs + outputs@,
                staged: before.staged + before.buffered as nat,
                buffered: 0,
                ..before
            }),
            Err(text) => write_fails(before, after, staging_error(inputs, text@)),
        },
        (JobPhase::NextSpool, JobEvent::Text(r)) => match r {
            Ok(_) => walks(inputs, before, after),
            Err(text) => write_fails(
                before,
                after,
                ErrorView::Internal(
                    inputs.named(
                        "failed to create next compacted row ref spool for '"@,
                        "': "@ + text@,
                    ),
                ),
            ),
        },
        (JobPhase::FinalRead, JobEvent::Outcome(r)) => match r {
            Ok(_) => after == at(
                before,
                if before.buffered == 0 {
                    JobPhase::Live
                } else {
                    JobPhase::StageLast
                },
            ),
            Err(e) => write_fails(before, after, e@),
        },
        (JobPhase::StageLast, JobEvent::Staged(r)) => match r {
            Ok(outputs) => after == (RunView {
                phase: JobPhase::Live,
                outputs: before.outputs + outputs@,
                staged: before.staged + before.buffered as nat,
                buffered: 0,
                ..before
            }),
            Err(text) => write_fails(before, after, staging_error(inputs, text@)),
        },
        (JobPhase::Live, JobEvent::Outcome(r)) => match r {
            Ok(_) => after == at(before, JobPhase::Fence),
            Err(e) => liveness_fails(before, after, e@),
        },
        (JobPhase::Fence, JobEvent::Outcome(r)) => match r {
            Ok(_) => after == at(before, JobPhase::Publish),
            Err(e) => liveness_fails(before, after, e@),
        },
        (JobPhase::Publish, JobEvent::Published(r)) => match r {
            Ok(count) => if count == before.outputs.len() {
                after == at(before, JobPhase::Topology)
            } else {
                install_fails(
                    before,
                    after,
                    "runtime_output_cardinality_mismatch"@,
                    "published compaction output count differs from reserved runtime identities"@,
                )
            },
            Err(e) => if is_stale(e@) {
                ends(before, after, EndKind::Stale, Some(e@), true) && after.end->0.reason
                    == stale_reason()
            } else {
                ends(before, after, EndKind::Invalidated, Some(e@), true)
                    && after.end->0.reason == "physical_publication_rejected"@
            },
        },
        (JobPhase::Topology, JobEvent::Text(r)) => match r {
            Ok(_) => after == at(before, JobPhase::Tombstones),
            Err(text) => install_fails(
                before,
                after,
                "topology_publication_rejected"@,
                inputs.named(
                    "physical compaction committed but runtime topology installation failed for '"@,
                    "': "@ + text@,
                ),
            ),
        },
        (JobPhase::Tombstones, JobEvent::Installed { matches, changed }) => if !matches {
            install_fails(
                before,
                after,
                "runtime_tombstone_replacement_mismatch"@,
                inputs.named(
                    "physical compaction committed but runtime tombstone replacement differed for '"@,
                    "'"@,
                ),
            )
        } else if changed {
            after == at(before, JobPhase::Snapshot)
        } else {
            succeeds(before, after)
        },
        (JobPhase::Snapshot, JobEvent::Snapshot(found)) => match found {
            None => ends(
                before,
                after,
                EndKind::Unclassified,
                Some(
                    ErrorView::Internal(
                        inputs.named(
                            "physical compaction committed but tombstone generation was not dirty for '"@,
                            "'"@,
                        ),
                    ),
                ),
                true,
            ),
            Some(false) => install_fails(
                before,
                after,
                "runtime_tombstone_snapshot_mismatch"@,
                inputs.named(
                    "physical compaction committed but runtime tombstone snapshot differed for '"@,
                    "'"@,
                ),
            ),
            Some(true) => succeeds(before, after),
        },
        _ => after == before,
    }
}

pub open spec fn staging_error(inputs: JobInputs, text: Seq<char>) -> ErrorView {
    ErrorView::Internal(
        inputs.named("failed to write compacted volume for '"@, "': "@ + text),
    )
}

impl CompactionRun {
    /// What the job waits for.
    pub fn action(&self) -> (action: JobAction)
        requires
            self.wf(),
        ensures
            asks(self.plan(), self@, action),
    {
        match self.phase {
            JobPhase::Begin => JobAction::BeginPublication,
            JobPhase::Reserve => JobAction::ReserveDisk,
            JobPhase::Headroom => JobAction::CheckHeadroom,
            JobPhase::Spool | JobPhase::NextSpool => JobAction::CreateSpool,
            JobPhase::Account => JobAction::AccountRead {
                bytes: accounted_read_bytes(
                    self.inputs.input_bytes,
                    self.examined,
                    self.inputs.input_rows,
                ),
            },
            JobPhase::Append => match self.pending {
                Some(row_ref) => JobAction::Append { row_ref },
                None => {
                    assert(false);
                    JobAction::Finish
                },
            },
            JobPhase::StageChunk | JobPhase::StageLast => JobAction::StageRows,
            JobPhase::FinalRead => JobAction::AccountRead { bytes: self.inputs.input_bytes },
            JobPhase::Live => JobAction::CheckLive,
            JobPhase::Fence => {
                let totals: OutputTotals = output_totals(&self.outputs);
                let (reclaimed_rows, reclaimed_bytes): (u64, u64) = reclaimed(
                    self.inputs.input_rows,
                    self.inputs.input_bytes,
                    self.outputs.len() > 0,
                    totals,
                );
                JobAction::EnterFence {
                    runtime_ids: self.outputs.len(),
                    totals,
                    reclaimed_rows,
                    reclaimed_bytes,
                }
            },
            JobPhase::Publish => JobAction::Publish,
            JobPhase::Topology => JobAction::InstallTopology,
            JobPhase::Tombstones => JobAction::InstallTombstones,
            JobPhase::Snapshot => JobAction::ConfirmTombstones,
            JobPhase::Done => JobAction::Finish,
        }
    }

    fn stop_text(&mut self, before: &str, text: &str)
        ensures
            final(self).wf(),
            final(self).inputs == old(self).inputs,
            write_fails(
                old(self)@,
                final(self)@,
                ErrorView::Internal(old(self).inputs.named(before@, "': "@ + text@)),
            ),
    {
        let after: String = String::from_str("': ").concat(text);
        let message: String = self.inputs.message(before, after.as_str());
        self.stop_output(Error::Internal { message });
    }

    fn stop_install(&mut self, reason: &str, message: String)
        ensures
            final(self).wf(),
            final(self).inputs == old(self).inputs,
            install_fails(old(self)@, final(self)@, reason@, message@),
    {
        self.stop(
            EndKind::Failed,
            String::from_str(reason),
            Some(Error::Internal { message }),
            true,
        );
    }

    fn stop_admission(&mut self, error: Error)
        ensures
            final(self).wf(),
            final(self).inputs == old(self).inputs,
            admission_fails(old(self)@, final(self)@, error@),
    {
        let failure: JobFailure = admission_failure(&error);
        self.stop(EndKind::Invalidated, failure.reason, Some(error), false);
    }

    fn stop_live(&mut self, error: Error)
        ensures
            final(self).wf(),
            final(self).inputs == old(self).inputs,
            liveness_fails(old(self)@, final(self)@, error@),
    {
        let failure: JobFailure = liveness_failure(&error);
        self.stop(EndKind::Invalidated, failure.reason, Some(error), true);
    }

    fn stop_publication(&mut self, error: Error)
        ensures
            final(self).wf(),
            final(self).inputs == old(self).inputs,
            if is_stale(error@) {
                ends(old(self)@, final(self)@, EndKind::Stale, Some(error@), true)
                    && final(self)@.end->0.reason == stale_reason()
            } else {
                ends(old(self)@, final(self)@, EndKind::Invalidated, Some(error@), true)
                    && final(self)@.end->0.reason == "physical_publication_rejected"@
            },
    {
        let failure: JobFailure = publication_failure(&error);
        let kind: EndKind = if failure.clears_cooldown {
            EndKind::Stale
        } else {
            EndKind::Invalidated
        };
        self.stop(kind, failure.reason, Some(error), true);
    }

    fn stop_unclassified(&mut self, error: Error, generated: bool)
        ensures
            final(self).wf(),
            final(self).inputs == old(self).inputs,
            ends(old(self)@, final(self)@, EndKind::Unclassified, Some(error@), generated),
    {
        self.stop(
            EndKind::Unclassified,
            String::from_str("failed_unclassified"),
            Some(error),
            generated,
        );
    }

    fn succeed(&mut self)
        ensures
            final(self).wf(),
            final(self).inputs == old(self).inputs,
            succeeds(old(self)@, final(self)@),
    {
        self.stop(EndKind::Published, String::from_str("published"), None, true);
    }

    fn take_outputs(&mut self, outputs: Vec<StagedOutput>)
        ensures
            final(self).inputs == old(self).inputs,
            final(self).walk == old(self).walk,
            final(self)@ == (RunView {
                outputs: old(self)@.outputs + outputs@,
                staged: old(self)@.staged + old(self)@.buffered as nat,
                buffered: 0,
                ..old(self)@
            }),
    {
        let mut outputs = outputs;
        self.outputs.append(&mut outputs);
        self.staged = Ghost(self.staged@ + self.buffered as nat);
        self.buffered = 0;
    }

    fn append_done(&mut self)
        requires
            old(self).wf(),
            old(self)@.phase == JobPhase::Append,
        ensures
            final(self).wf(),
            final(self).inputs == old(self).inputs,
            follows(
                old(self).inputs,
                old(self)@,
                JobEvent::Text(Ok(())),
                final(self)@,
            ),
    {
        let chunk: usize = compaction_chunk_rows(self.inputs.target_rows);
        self.pending = None;
        self.buffered = self.buffered + 1;
        if self.buffered >= chunk {
            self.phase = JobPhase::StageChunk;
        } else {
            self.walk_on();
        }
    }

    /// Takes note of what came of the action.
    pub fn advance(&mut self, event: JobEvent) -> (action: JobAction)
        requires
            old(self).wf(),
        ensures
            final(self).wf(),
            final(self).plan() == old(self).plan(),
            follows(old(self).plan(), old(self)@, event, final(self)@),
            asks(final(self).plan(), final(self)@, action),
    {
        match (self.phase, event) {
            (JobPhase::Begin, JobEvent::Outcome(r)) => match r {
                Ok(_) => {
                    self.phase = JobPhase::Reserve;
                },
                Err(e) => {
                    self.stop_unclassified(e, false);
                },
            },
            (JobPhase::Reserve, JobEvent::Outcome(r)) => match r {
                Ok(_) => {
                    self.phase = JobPhase::Headroom;
                },
                Err(e) => {
                    self.stop_admission(e);
                },
            },
            (JobPhase::Headroom, JobEvent::Outcome(r)) => match r {
                Ok(_) => {
                    self.phase = JobPhase::Spool;
                },
                Err(e) => {
                    self.stop_admission(e);
                },
            },
            (JobPhase::Spool, JobEvent::Text(r)) => match r {
                Ok(_) => {
                    self.walk_on();
                },
                Err(text) => {
                    let after: String = String::from_str("': ").concat(text.as_str());
                    let message: String = self.inputs.message(
                        "failed to create compacted row ref spool for '",
                        after.as_str(),
                    );
                    self.stop_unclassified(Error::Internal { message }, false);
                },
            },
            (JobPhase::Account, JobEvent::Outcome(r)) => match r {
                Ok(_) => {
                    if !self.take_row() {
                        self.walk_on();
                    }
                },
                Err(e) => {
                    self.stop_output(e);
                },
            },
            (JobPhase::Append, JobEvent::Text(r)) => match r {
                Ok(_) => {
                    self.append_done();
                },
                Err(text) => {
                    self.stop_text(
                        "failed to append compacted row reference for '",
                        text.as_str(),
                    );
                },
            },
            (JobPhase::StageChunk, JobEvent::Staged(r)) => match r {
                Ok(outputs) => {
                    self.take_outputs(outputs);
                    self.phase = JobPhase::NextSpool;
                },
                Err(text) => {
                    self.stop_text("failed to write compacted volume for '", text.as_str());
                },
            },
            (JobPhase::NextSpool, JobEvent::Text(r)) => match r {
                Ok(_) => {
                    self.walk_on();
                },
                Err(text) => {
                    self.stop_text(
                        "failed to create next compacted row ref spool for '",
                        text.as_str(),
                    );
                },
            },
            (JobPhase::FinalRead, JobEvent::Outcome(r)) => match r {
                Ok(_) => {
                    self.phase = if self.buffered == 0 {
                        JobPhase::Live
                    } else {
                        JobPhase::StageLast
                    };
                },
                Err(e) => {
                    self.stop_output(e);
                },
            },
            (JobPhase::StageLast, JobEvent::Staged(r)) => match r {
                Ok(outputs) => {
                    self.take_outputs(outputs);
                    self.phase = JobPhase::Live;
                },
                Err(text) => {
                    self.stop_text("failed to write compacted volume for '", text.as_str());
                },
            },
            (JobPhase::Live, JobEvent::Outcome(r)) => match r {
                Ok(_) => {
                    self.phase = JobPhase::Fence;
                },
                Err(e) => {
                    self.stop_live(e);
                },
            },
            (JobPhase::Fence, JobEvent::Outcome(r)) => match r {
                Ok(_) => {
                    self.phase = JobPhase::Publish;
                },
                Err(e) => {
                    self.stop_live(e);
                },
            },
            (JobPhase::Publish, JobEvent::Published(r)) => match r {
                Ok(count) => {
                    if count == self.outputs.len() {
                        self.phase = JobPhase::Topology;
                    } else {
                        self.stop_install(
                            "runtime_output_cardinality_mismatch",
                            String::from_str(
                                "published compaction output count differs from reserved runtime identities",
                            ),
                        );
                    }
                },
                Err(e) => {
                    self.stop_publication(e);
                },
            },
            (JobPhase::Topology, JobEvent::Text(r)) => match r {
                Ok(_) => {
                    self.phase = JobPhase::Tombstones;
                },
                Err(text) => {
                    let after: String = String::from_str("': ").concat(text.as_str());
                    let message: String = self.inputs.message(
                        "physical compaction committed but runtime topology installation failed for '",
                        after.as_str(),
                    );
                    self.stop_install("topology_publication_rejected", message);
                },
            },
            (JobPhase::Tombstones, JobEvent::Installed { matches, changed }) => {
                if !matches {
                    let message: String = self.inputs.message(
                        "physical compaction committed but runtime tombstone replacement differed for '",
                        "'",
                    );
                    self.stop_install("runtime_tombstone_replacement_mismatch", message);
                } else if changed {
                    self.phase = JobPhase::Snapshot;
                } else {
                    self.succeed();
                }
            },
            (JobPhase::Snapshot, JobEvent::Snapshot(found)) => match found {
                None => {
                    let message: String = self.inputs.message(
                        "physical compaction committed but tombstone generation was not dirty for '",
                        "'",
                    );
                    self.stop_unclassified(Error::Internal { message }, true);
                },
                Some(same) => {
                    if same {
                        self.succeed();
                    } else {
                        let message: String = self.inputs.message(
                            "physical compaction committed but runtime tombstone snapshot differed for '",
                            "'",
                        );
                        self.stop_install("runtime_tombstone_snapshot_mismatch", message);
                    }
                },
            },
            _ => {},
        }
        self.action()
    }
}

/// The ledger after the job's output is known.
pub open spec fn counts_after_output(
    counts: CompactionCounts,
    outputs: Seq<StagedOutput>,
) -> CompactionCounts {
    counts_after_generated(
        counts,
        output_rows(outputs) as u64,
        output_bytes(outputs) as u64,
        indexed_outputs(outputs) as u64,
    )
}

/// The cost of a job whose output is known.
pub open spec fn job_with_output(
    job: CompactionCostJobGuard,
    outputs: Seq<StagedOutput>,
) -> CompactionCostJobGuard {
    CompactionCostJobGuard {
        output_rows: output_rows(outputs) as u64,
        output_bytes: output_bytes(outputs) as u64,
        posting_outputs: indexed_outputs(outputs) as u64,
        ..job
    }
}

/// The ledger's counters after a job ended.
pub open spec fn counts_after_end(
    counts: CompactionCounts,
    job: CompactionCostJobGuard,
    run: RunView,
    publication_nanos: u64,
) -> CompactionCounts {
    let end = run.end->0;
    let known = if end.generated {
        counts_after_output(counts, run.outputs)
    } else {
        counts
    };
    let cost = if end.generated {
        job_with_output(job, run.outputs)
    } else {
        job
    };
    match end.kind {
        EndKind::Published => counts_after_published(known, cost, publication_nanos),
        EndKind::Stale | EndKind::Invalidated => counts_after_invalidated(
            known,
            cost,
            end.reason,
        ),
        EndKind::Failed | EndKind::Unclassified => counts_after_failed(known),
    }
}

/// The ledger's texts after a job ended.
pub open spec fn reasons_after_end(reasons: CostReasons, run: RunView) -> CostReasons {
    let end = run.end->0;
    match end.kind {
        EndKind::Published => CostReasons { outcome: kept_reason("published"@), ..reasons },
        EndKind::Stale | EndKind::Invalidated => CostReasons {
            outcome: kept_reason(end.reason),
            ..reasons_after_invalidation(reasons, end.reason)
        },
        EndKind::Failed => CostReasons { outcome: kept_reason(end.reason), ..reasons },
        EndKind::Unclassified => CostReasons {
            outcome: kept_reason("failed_unclassified"@),
            ..reasons
        },
    }
}

/// Why the inputs of a job are held back: for what ended it, or for what the
/// retry bookkeeping says where nothing is known.
pub open spec fn retry_reason(retry: CompactionRetryJob, run: RunView) -> Seq<char> {
    if run.end->0.kind == EndKind::Unclassified {
        retry.reason@
    } else {
        run.end->0.reason
    }
}

impl CompactionRun {
    /// Enters a finished job into both ledgers and gives its result. The
    /// inputs of a published job, and of one that lost the publication race,
    /// may be chosen again at once.
    pub fn settle(
        self,
        retry: CompactionRetryJob,
        cooldown: &mut CompactionRetryCooldown,
        cost: CompactionCostJobGuard,
        ledger: &mut EngineCompactionCostState,
        publication_nanos: u64,
        now_millis: u64,
        now_unix_millis: u64,
    ) -> (r: Result<(), Error>)
        requires
            self.wf(),
            self@.phase == JobPhase::Done,
            old(cooldown).wf(),
        ensures
            final(cooldown).wf(),
            match r {
                Ok(_) => self@.end->0.error is None,
                Err(e) => self@.end->0.error == Some(e@),
            },
            final(ledger).counts == counts_after_end(
                old(ledger).counts,
                cost,
                self@,
                publication_nanos,
            ),
            final(cooldown).suppressed == old(cooldown).suppressed,
            final(ledger).reasons() == reasons_after_end(old(ledger).reasons(), self@),
            if self@.end->0.kind == EndKind::Published || self@.end->0.kind == EndKind::Stale {
                final(cooldown).active@ == kept(
                    old(cooldown).active@,
                    None,
                    Some(retry.signature),
                )
            } else {
                is_recorded(
                    old(cooldown).active@,
                    final(cooldown).active@,
                    retry.signature,
                    retry.cooldown_ms,
                    retry_reason(retry, self@),
                    now_millis,
                    now_unix_millis,
                )
            },
    {
        let mut cost = cost;
        let mut retry = retry;
        let totals: OutputTotals = output_totals(&self.outputs);
        let end: JobEnd = match self.end {
            Some(end) => end,
            None => {
                assert(false);
                return Ok(());
            },
        };
        if end.generated {
            cost.set_generated_output(ledger, totals.rows, totals.bytes, totals.posting_outputs);
        }
        match end.kind {
            EndKind::Published => {
                cost.published(ledger, publication_nanos);
                retry.success(cooldown);
            },
            EndKind::Stale => {
                cost.invalidated(ledger, end.reason.as_str());
                retry.success(cooldown);
            },
            EndKind::Invalidated => {
                cost.invalidated(ledger, end.reason.as_str());
                retry.set_reason(end.reason.as_str());
                retry.abandon(cooldown, now_millis, now_unix_millis);
            },
            EndKind::Failed => {
                cost.failed(ledger, end.reason.as_str());
                retry.set_reason(end.reason.as_str());
                retry.abandon(cooldown, now_millis, now_unix_millis);
            },
            EndKind::Unclassified => {
                cost.abandoned(ledger);
                retry.abandon(cooldown, now_millis, now_unix_millis);
            },
        }
        match end.error {
            Some(e) => Err(e),
            None => Ok(()),
        }
    }
}

/// A job publishes only after it has merged all its inputs and handed every
/// surviving row to staging.
pub proof fn law_published_rows_are_the_merge(run: CompactionRun)
    requires
        run.wf(),
        run@.phase == JobPhase::Publish,
    ensures
        is_merge_of(run.plan().streams(), run.plan().tombstones@, run.plan().boundary, run@.kept),
        run@.staged == run@.kept.len(),
{
    lemma_exhausted_walk_is_merge(
        run.walk,
        run.inputs.streams(),
        run.inputs.tombstones@,
        run.inputs.boundary,
    );
}

/// A chunk that is staged before the input ends holds whole row groups.
pub proof fn law_full_chunks_are_whole_groups(run: CompactionRun)
    requires
        run.wf(),
        run@.phase == JobPhase::StageChunk,
    ensures
        run@.buffered == chunk_rows(run.plan().target_rows),
        run@.buffered % ROW_GROUP_SIZE == 0,
{
    assert(chunk_rows(run.inputs.target_rows) % ROW_GROUP_SIZE as int == 0) by (nonlinear_arith);
}

/// A finished job stays as it ended.
pub proof fn law_finished_job_is_final(
    inputs: JobInputs,
    before: RunView,
    event: JobEvent,
    after: RunView,
)
    requires
        before.phase == JobPhase::Done,
        follows(inputs, before, event, after),
    ensures
        after == before,
{
}

} // verus!
