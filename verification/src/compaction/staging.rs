//! Writing merged rows out, and splitting what does not fit one artifact.
use crate::compaction::abort::is_artifact_adaptive_capacity_error;
use crate::compaction::abort::is_capacity_error;
use crate::compaction::job::StagedOutput;
use crate::compaction::row_ref::ROW_GROUP_SIZE;
use crate::error::Error;
use crate::error::ErrorView;
use vstd::prelude::*;

verus! {

/// Half-open range of merged rows.
#[derive(Debug, Clone, Copy, PartialEq, Eq, Structural)]
pub struct RowRange {
    pub start: usize,
    pub end: usize,
}

impl RowRange {
    pub open spec fn wf(self) -> bool {
        self.start <= self.end
    }

    pub open spec fn rows(self) -> int {
        self.end - self.start
    }
}

/// Where a range of at least two rows is cut: in the middle, moved down to a
/// row-group boundary within the range where there is one.
pub open spec fn split_point(range: RowRange) -> int {
    let half = range.rows() / 2;
    let aligned = (half / ROW_GROUP_SIZE as int) * ROW_GROUP_SIZE;
    range.start + if aligned == 0 {
        half
    } else {
        aligned
    }
}

/// The two parts of a range that is cut.
pub open spec fn halves(range: RowRange) -> Seq<RowRange> {
    let at = split_point(range) as usize;
    seq![(RowRange { start: range.start, end: at }), (RowRange { start: at, end: range.end })]
}

pub fn split_range(range: RowRange) -> (at: usize)
    requires
        range.rows() > 1,
    ensures
        at == split_point(range),
        range.start < at < range.end,
{
    let half: usize = (range.end - range.start) / 2;
    let aligned: usize = (half / ROW_GROUP_SIZE) * ROW_GROUP_SIZE;
    range.start + if aligned == 0 {
        half
    } else {
        aligned
    }
}

/// Consecutive ranges from `from` to `to`.
pub open spec fn tiles(ranges: Seq<RowRange>, from: int, to: int) -> bool
    decreases ranges.len(),
{
    if ranges.len() == 0 {
        from == to
    } else {
        &&& ranges[0].start == from
        &&& ranges[0].wf()
        &&& tiles(ranges.drop_first(), ranges[0].end as int, to)
    }
}

proof fn lemma_tiles_push(ranges: Seq<RowRange>, from: int, to: int, next: RowRange)
    requires
        tiles(ranges, from, to),
        next.start == to,
        next.wf(),
    ensures
        tiles(ranges.push(next), from, next.end as int),
    decreases ranges.len(),
{
    let longer = ranges.push(next);
    if ranges.len() == 0 {
        assert(longer.drop_first() =~= Seq::empty());
        assert(tiles(longer.drop_first(), next.end as int, next.end as int));
    } else {
        assert(longer.drop_first() =~= ranges.drop_first().push(next));
        lemma_tiles_push(ranges.drop_first(), ranges[0].end as int, to, next);
    }
}

/// Ranges still to stage, nearest last, and those already staged.
#[derive(Debug)]
pub struct StagingPlan {
    total: usize,
    pending: Vec<RowRange>,
    staged: Vec<RowRange>,
}

/// Pending ranges read from the top of the stack downwards.
spec fn stack_tiles(stack: Seq<RowRange>, from: int, to: int) -> bool
    decreases stack.len(),
{
    if stack.len() == 0 {
        from == to
    } else {
        &&& stack.last().start == from
        &&& stack.last().wf()
        &&& stack_tiles(stack.drop_last(), stack.last().end as int, to)
    }
}

spec fn stack_start(stack: Seq<RowRange>, total: int) -> int {
    if stack.len() == 0 {
        total
    } else {
        stack.last().start as int
    }
}

impl StagingPlan {
    pub closed spec fn total_rows(self) -> int {
        self.total as int
    }

    /// Ranges staged so far, in output order.
    pub closed spec fn outputs(self) -> Seq<RowRange> {
        self.staged@
    }

    /// Ranges still to stage, nearest first.
    pub closed spec fn pending(self) -> Seq<RowRange> {
        self.pending@.reverse()
    }

    /// The range to stage next.
    pub open spec fn next(self) -> Option<RowRange> {
        if self.pending().len() == 0 {
            None
        } else {
            Some(self.pending()[0])
        }
    }

    /// First row that is not staged yet.
    pub open spec fn frontier(self) -> int {
        match self.next() {
            None => self.total_rows(),
            Some(range) => range.start as int,
        }
    }

    pub closed spec fn wf(self) -> bool {
        let at = stack_start(self.pending@, self.total as int);
        &&& tiles(self.staged@, 0, at)
        &&& stack_tiles(self.pending@, at, self.total as int)
    }

    /// One range over all merged rows.
    pub fn new(rows: usize) -> (plan: Self)
        ensures
            plan.wf(),
            plan.total_rows() == rows,
            plan.outputs().len() == 0,
            plan.pending() == seq![(RowRange { start: 0, end: rows })],
    {
        let mut pending: Vec<RowRange> = Vec::new();
        pending.push(RowRange { start: 0, end: rows });
        let plan = StagingPlan { total: rows, pending, staged: Vec::new() };
        assert(plan.pending@.drop_last() =~= Seq::empty());
        assert(stack_tiles(plan.pending@.drop_last(), rows as int, rows as int));
        assert(plan.pending() =~= seq![(RowRange { start: 0, end: rows })]);
        plan
    }

    /// The range to stage now, or nothing when all rows are staged.
    pub fn next_range(&self) -> (r: Option<RowRange>)
        ensures
            r == self.next(),
    {
        if self.pending.len() == 0 {
            None
        } else {
            Some(self.pending[self.pending.len() - 1])
        }
    }

    /// The next range was staged as one output.
    pub fn staged_next(&mut self)
        requires
            old(self).wf(),
            old(self).next() is Some,
        ensures
            final(self).wf(),
            final(self).total_rows() == old(self).total_rows(),
            final(self).outputs() == old(self).outputs().push(old(self).next()->0),
            final(self).pending() == old(self).pending().drop_first(),
            final(self).frontier() == old(self).next()->0.end,
    {
        proof {
            let stack = self.pending@;
            lemma_tiles_push(self.staged@, 0, stack.last().start as int, stack.last());
        }
        let ghost stack = self.pending@;
        let range: RowRange = self.pending.pop().unwrap();
        self.staged.push(range);
        proof {
            assert(self.pending@ =~= stack.drop_last());
            assert(self.pending() =~= stack.reverse().drop_first());
            assert(stack_tiles(self.pending@, range.end as int, self.total as int));
            if self.pending@.len() > 0 {
                assert(self.pending@.last().start == range.end);
            }
        }
    }

    /// The next range did not fit: cut it, or report that it cannot be cut.
    pub fn split_next(&mut self) -> (r: bool)
        requires
            old(self).wf(),
            old(self).next() is Some,
        ensures
            final(self).wf(),
            final(self).total_rows() == old(self).total_rows(),
            final(self).outputs() == old(self).outputs(),
            r == (old(self).next()->0.rows() > 1),
            !r ==> *final(self) == *old(self),
            r ==> final(self).pending() == halves(old(self).next()->0) + old(
                self,
            ).pending().drop_first(),
    {
        let range: RowRange = self.pending[self.pending.len() - 1];
        if range.end - range.start <= 1 {
            return false;
        }
        let ghost stack = self.pending@;
        let at: usize = split_range(range);
        let _ = self.pending.pop();
        let ghost rest = self.pending@;
        assert(rest =~= stack.drop_last());
        let second = RowRange { start: at, end: range.end };
        let first = RowRange { start: range.start, end: at };
        self.pending.push(second);
        proof {
            assert(self.pending@.drop_last() =~= rest);
            assert(stack_tiles(self.pending@, at as int, self.total as int));
        }
        let ghost middle = self.pending@;
        self.pending.push(first);
        proof {
            assert(self.pending@.drop_last() =~= middle);
            assert(stack_tiles(self.pending@, range.start as int, self.total as int));
            assert(self.pending() =~= halves(range) + stack.reverse().drop_first());
        }
        true
    }
}

/// When nothing is left to stage, the staged outputs tile all merged rows in
/// order: none is lost, none is written twice.
pub proof fn law_finished_staging_covers_every_row(plan: StagingPlan)
    requires
        plan.wf(),
        plan.next() is None,
    ensures
        tiles(plan.outputs(), 0, plan.total_rows()),
{
}

/// What staging waits for.
#[derive(Debug, Clone, Copy, PartialEq, Eq, Structural)]
pub enum StagingPhase {
    /// Proof that the job's inputs are still current.
    CheckLive,
    /// Room for another output.
    CheckHeadroom,
    /// The artifact of a range.
    Stage,
    /// The accounting of what was written.
    Account,
    /// Proof that the inputs stayed current meanwhile.
    CheckStillLive,
    Done,
}

/// What staging wants done next.
#[derive(Debug, Clone, Copy, PartialEq, Eq, Structural)]
pub enum StagingAction {
    CheckLive,
    CheckHeadroom,
    Stage { range: RowRange },
    Account { physical_bytes: u64 },
    Finish,
}

/// What came of an action.
#[derive(Debug)]
pub enum StagingEvent {
    Outcome(Result<(), Error>),
    Staged(Result<StagedOutput, Error>),
}

/// Merged rows being written out, range after range.
#[derive(Debug)]
pub struct StagingRun {
    plan: StagingPlan,
    phase: StagingPhase,
    /// The output that is not accounted yet.
    held: Option<StagedOutput>,
    outputs: Vec<StagedOutput>,
    error: Option<Error>,
}

#[verifier::ext_equal]
pub struct StagingView {
    pub phase: StagingPhase,
    /// Ranges still to stage, nearest first.
    pub pending: Seq<RowRange>,
    /// Ranges staged so far.
    pub staged: Seq<RowRange>,
    pub held: Option<StagedOutput>,
    /// Outputs of the staged ranges.
    pub outputs: Seq<StagedOutput>,
    pub error: Option<ErrorView>,
}

impl View for StagingRun {
    type V = StagingView;

    closed spec fn view(&self) -> StagingView {
        StagingView {
            phase: self.phase,
            pending: self.plan.pending(),
            staged: self.plan.outputs(),
            held: self.held,
            outputs: self.outputs@,
            error: match self.error {
                Some(e) => Some(e@),
                None => None,
            },
        }
    }
}

pub open spec fn staging_at(run: StagingView, phase: StagingPhase) -> StagingView {
    StagingView { phase, ..run }
}

pub open spec fn staging_failed(run: StagingView, error: ErrorView) -> StagingView {
    StagingView { phase: StagingPhase::Done, held: None, error: Some(error), ..run }
}

/// After a check: on to the next phase, or the end.
pub open spec fn staging_checked(
    run: StagingView,
    r: Result<(), Error>,
    phase: StagingPhase,
) -> StagingView {
    match r {
        Err(e) => staging_failed(run, e@),
        Ok(_) => staging_at(run, phase),
    }
}

/// What follows an event. Only an output that is too large, of more than one
/// row, is tried again in two parts. An event that is not waited for changes
/// nothing.
pub open spec fn staging_next(run: StagingView, event: StagingEvent) -> StagingView {
    match (run.phase, event) {
        (StagingPhase::CheckLive, StagingEvent::Outcome(r)) => staging_checked(
            run,
            r,
            StagingPhase::CheckHeadroom,
        ),
        (StagingPhase::CheckHeadroom, StagingEvent::Outcome(r)) => staging_checked(
            run,
            r,
            StagingPhase::Stage,
        ),
        (StagingPhase::Stage, StagingEvent::Staged(r)) => match r {
            Ok(output) => StagingView { phase: StagingPhase::Account, held: Some(output), ..run },
            Err(e) => if is_capacity_error(e@) && run.pending[0].rows() > 1 {
                StagingView {
                    phase: StagingPhase::CheckLive,
                    pending: halves(run.pending[0]) + run.pending.drop_first(),
                    ..run
                }
            } else {
                staging_failed(run, e@)
            },
        },
        (StagingPhase::Account, StagingEvent::Outcome(r)) => match r {
            Err(e) => staging_failed(run, e@),
            Ok(_) => StagingView {
                phase: StagingPhase::CheckStillLive,
                pending: run.pending.drop_first(),
                staged: run.staged.push(run.pending[0]),
                held: None,
                outputs: run.outputs.push(run.held->0),
                ..run
            },
        },
        (StagingPhase::CheckStillLive, StagingEvent::Outcome(r)) => staging_checked(
            run,
            r,
            if run.pending.len() == 0 {
                StagingPhase::Done
            } else {
                StagingPhase::CheckLive
            },
        ),
        _ => run,
    }
}

/// What staging asks for.
pub open spec fn staging_action(run: StagingView) -> StagingAction {
    match run.phase {
        StagingPhase::CheckLive | StagingPhase::CheckStillLive => StagingAction::CheckLive,
        StagingPhase::CheckHeadroom => StagingAction::CheckHeadroom,
        StagingPhase::Stage => StagingAction::Stage { range: run.pending[0] },
        StagingPhase::Account => StagingAction::Account { physical_bytes: run.held->0.physical_bytes },
        StagingPhase::Done => StagingAction::Finish,
    }
}

/// Ranges and outputs agree with the phase.
pub open spec fn staging_wf(run: StagingView) -> bool {
    &&& run.outputs.len() == run.staged.len()
    &&& run.held is Some <==> run.phase == StagingPhase::Account
    &&& run.error is Some ==> run.phase == StagingPhase::Done
    &&& match run.phase {
        StagingPhase::CheckStillLive => true,
        StagingPhase::Done => run.error is Some || run.pending.len() == 0,
        _ => run.pending.len() > 0,
    }
}

/// What staging came to, once it is done.
pub open spec fn staging_result(run: StagingView) -> Option<Result<Seq<StagedOutput>, ErrorView>> {
    if run.phase != StagingPhase::Done {
        None
    } else {
        match run.error {
            Some(e) => Some(Err(e)),
            None => Some(Ok(run.outputs)),
        }
    }
}

impl StagingRun {
    pub closed spec fn total_rows(self) -> int {
        self.plan.total_rows()
    }

    /// The staged and the pending ranges tile the rows, and agree with the
    /// phase.
    pub closed spec fn wf(self) -> bool {
        self.plan.wf() && staging_wf(self@)
    }

    /// Starts on all merged rows as one range.
    pub fn new(rows: usize) -> (run: Self)
        ensures
            run.wf(),
            run.total_rows() == rows,
            run@ == (StagingView {
                phase: StagingPhase::CheckLive,
                pending: seq![(RowRange { start: 0, end: rows })],
                staged: Seq::empty(),
                held: None,
                outputs: Seq::empty(),
                error: None,
            }),
    {
        let run = StagingRun {
            plan: StagingPlan::new(rows),
            phase: StagingPhase::CheckLive,
            held: None,
            outputs: Vec::new(),
            error: None,
        };
        assert(run@.staged =~= Seq::<RowRange>::empty());
        assert(run@.outputs =~= Seq::<StagedOutput>::empty());
        run
    }

    /// The step to take.
    pub fn action(&self) -> (r: StagingAction)
        requires
            self.wf(),
        ensures
            r == staging_action(self@),
    {
        match self.phase {
            StagingPhase::CheckLive | StagingPhase::CheckStillLive => StagingAction::CheckLive,
            StagingPhase::CheckHeadroom => StagingAction::CheckHeadroom,
            StagingPhase::Stage => match self.plan.next_range() {
                Some(range) => StagingAction::Stage { range },
                None => {
                    assert(false);
                    StagingAction::Finish
                },
            },
            StagingPhase::Account => match self.held {
                Some(output) => StagingAction::Account { physical_bytes: output.physical_bytes },
                None => {
                    assert(false);
                    StagingAction::Finish
                },
            },
            StagingPhase::Done => StagingAction::Finish,
        }
    }

    fn fail(&mut self, error: Error)
        requires
            old(self).wf(),
        ensures
            final(self).wf(),
            final(self).total_rows() == old(self).total_rows(),
            final(self)@ == staging_failed(old(self)@, error@),
    {
        self.phase = StagingPhase::Done;
        self.held = None;
        self.error = Some(error);
    }

    /// Takes in what came of the last step.
    pub fn advance(&mut self, event: StagingEvent)
        requires
            old(self).wf(),
        ensures
            final(self).wf(),
            final(self).total_rows() == old(self).total_rows(),
            final(self)@ == staging_next(old(self)@, event),
    {
        match (self.phase, event) {
            (StagingPhase::CheckLive, StagingEvent::Outcome(r)) => match r {
                Err(e) => self.fail(e),
                Ok(_) => {
                    self.phase = StagingPhase::CheckHeadroom;
                },
            },
            (StagingPhase::CheckHeadroom, StagingEvent::Outcome(r)) => match r {
                Err(e) => self.fail(e),
                Ok(_) => {
                    self.phase = StagingPhase::Stage;
                },
            },
            (StagingPhase::Stage, StagingEvent::Staged(r)) => match r {
                Ok(output) => {
                    self.held = Some(output);
                    self.phase = StagingPhase::Account;
                },
                Err(e) => {
                    if is_artifact_adaptive_capacity_error(&e) && self.plan.split_next() {
                        self.phase = StagingPhase::CheckLive;
                    } else {
                        self.fail(e);
                    }
                },
            },
            (StagingPhase::Account, StagingEvent::Outcome(r)) => match r {
                Err(e) => self.fail(e),
                Ok(_) => {
                    if let Some(output) = self.held {
                        self.outputs.push(output);
                    }
                    self.held = None;
                    self.plan.staged_next();
                    self.phase = StagingPhase::CheckStillLive;
                },
            },
            (StagingPhase::CheckStillLive, StagingEvent::Outcome(r)) => match r {
                Err(e) => self.fail(e),
                Ok(_) => {
                    self.phase = if self.plan.next_range().is_none() {
                        StagingPhase::Done
                    } else {
                        StagingPhase::CheckLive
                    };
                },
            },
            _ => {},
        }
    }

    /// The outputs in the order of their rows or why staging failed, once it
    /// is done.
    pub fn outcome(self) -> (r: Option<Result<Vec<StagedOutput>, Error>>)
        ensures
            match r {
                None => staging_result(self@) is None,
                Some(Ok(outputs)) => staging_result(self@) == Some(
                    Ok::<Seq<StagedOutput>, ErrorView>(outputs@),
                ),
                Some(Err(e)) => staging_result(self@) == Some(
                    Err::<Seq<StagedOutput>, ErrorView>(e@),
                ),
            },
    {
        match self.phase {
            StagingPhase::Done => match self.error {
                Some(e) => Some(Err(e)),
                None => Some(Ok(self.outputs)),
            },
            _ => None,
        }
    }
}

/// Staging that ends well has one output for each staged range, and those
/// ranges tile all merged rows in order.
pub proof fn law_staged_outputs_hold_every_row(run: StagingRun)
    requires
        run.wf(),
        run@.phase == StagingPhase::Done,
        run@.error is None,
    ensures
        run@.outputs.len() == run@.staged.len(),
        tiles(run@.staged, 0, run.total_rows()),
{
    law_finished_staging_covers_every_row(run.plan);
}

/// An output that is too large is never given up on while it has two rows: a
/// failure with such an error is one of a single row.
pub proof fn law_large_outputs_are_cut(run: StagingView, error: Error)
    requires
        staging_wf(run),
        run.phase == StagingPhase::Stage,
        is_capacity_error(error@),
    ensures
        staging_next(run, StagingEvent::Staged(Err(error))).error is Some <==> run.pending[0].rows()
            <= 1,
{
}

} // verus!
