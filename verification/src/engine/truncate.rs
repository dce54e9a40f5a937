//! Emptying a table, step by step.
//!
//! The log comes first: a crash behind the record is made good by replay, one
//! before it leaves the table as it was. Whoever truncates performs the step
//! that the run asks for and reports what came of it.
use super::lookups::get_version_store;
use super::lookups::store_refusal;
use crate::error::Error;
use crate::error::ErrorView;
use crate::names::NameMap;
use crate::text::lowercase_text;
use crate::text::to_lowercase;
use vstd::prelude::*;
use vstd::string::StringExecFns;

verus! {

/// What truncating a table owes the log.
#[derive(Debug, Clone, Copy, PartialEq, Eq, Structural)]
pub enum TruncateRecord {
    /// Replay, or a database without a log.
    Nothing,
    Record { table_id: u128 },
}

/// What a truncation owes the log, or why it may not be logged.
pub open spec fn truncate_record(
    table_lower: Seq<char>,
    shown_name: Seq<char>,
    table: Option<Result<u128, String>>,
    skip_wal: bool,
    persistent: bool,
) -> Result<TruncateRecord, ErrorView> {
    if skip_wal {
        Ok(TruncateRecord::Nothing)
    } else {
        match table {
            None => Err(ErrorView::TableNotFound(table_lower)),
            Some(Err(text)) => Err(
                ErrorView::Internal(
                    "table '"@ + shown_name + "' has invalid stable WAL identity: "@ + text@,
                ),
            ),
            Some(Ok(table_id)) => if persistent {
                Ok(TruncateRecord::Record { table_id })
            } else {
                Ok(TruncateRecord::Nothing)
            },
        }
    }
}

/// Decides on the log before anything is removed. `table` is absent where no
/// such table is published, else its identity or the text of the fault in it;
/// `shown_name` is its name as it was written.
pub fn record_truncate_table(
    table_lower: &str,
    shown_name: &str,
    table: &Option<Result<u128, String>>,
    skip_wal: bool,
    persistent: bool,
) -> (r: Result<TruncateRecord, Error>)
    ensures
        match r {
            Ok(record) => truncate_record(table_lower@, shown_name@, *table, skip_wal, persistent)
                == Ok::<TruncateRecord, ErrorView>(record),
            Err(e) => truncate_record(table_lower@, shown_name@, *table, skip_wal, persistent)
                == Err::<TruncateRecord, ErrorView>(e@),
        },
{
    if skip_wal {
        return Ok(TruncateRecord::Nothing);
    }
    match table {
        None => Err(Error::TableNotFound(String::from_str(table_lower))),
        Some(Err(text)) => Err(
            Error::Internal {
                message: String::from_str("table '").concat(shown_name).concat(
                    "' has invalid stable WAL identity: ",
                ).concat(text.as_str()),
            },
        ),
        Some(Ok(table_id)) => if persistent {
            Ok(TruncateRecord::Record { table_id: *table_id })
        } else {
            Ok(TruncateRecord::Nothing)
        },
    }
}

pub open spec fn uncertain_truncation(table_name: Seq<char>, text: Seq<char>) -> ErrorView {
    ErrorView::WalDurabilityUncertain(
        "TRUNCATE '"@ + table_name
            + "' is durably committed but persisted segment publication requires recovery: "@
            + text,
    )
}

/// The truncation is in the log but the runtime could not follow.
pub fn truncate_uncertain(table_name: &str, text: &str) -> (e: Error)
    ensures
        e@ == uncertain_truncation(table_name@, text@),
{
    Error::WalDurabilityUncertain {
        detail: String::from_str("TRUNCATE '").concat(table_name).concat(
            "' is durably committed but persisted segment publication requires recovery: ",
        ).concat(text),
    }
}

pub open spec fn saturated_rows(rows: int) -> int {
    if rows > i32::MAX {
        i32::MAX as int
    } else if rows < i32::MIN {
        i32::MIN as int
    } else {
        rows
    }
}

/// How many rows a truncation took, held to 32 bits.
pub fn truncated_rows(hot_rows: i32, cold_rows: i32) -> (r: i32)
    ensures
        r == saturated_rows(hot_rows + cold_rows),
{
    let total: i64 = hot_rows as i64 + cold_rows as i64;
    if total > 0x7fff_ffff {
        i32::MAX
    } else if total < -0x8000_0000 {
        i32::MIN
    } else {
        total as i32
    }
}

/// What a truncation waits for.
#[derive(Debug, Clone, Copy, PartialEq, Eq, Structural)]
pub enum TruncatePhase {
    /// Deletions of cold rows that the transaction still holds back.
    TakeBack,
    Record,
    /// The table's segments in the runtime.
    RemoveSegments,
    /// The tombstone file that older snapshots left.
    RemoveFile,
    ClearHot,
    Done,
}

/// What a truncation wants done next.
#[derive(Debug, Clone, Copy, PartialEq, Eq, Structural)]
pub enum TruncateAction {
    TakeBack,
    Record { table_id: u128 },
    RemoveSegments,
    RemoveFile,
    ClearHot,
    Finish,
}

/// What came of an action.
#[derive(Debug)]
pub enum TruncateEvent {
    /// The step is over, whatever came of it.
    Passed,
    Recorded(Result<(), Error>),
    /// The segments are gone, or the text of the fault.
    Removed(Result<(), String>),
    Cleared { hot_rows: i32 },
}

/// A table that is to be emptied.
#[derive(Debug)]
pub struct TruncateRequest {
    /// Name as the catalog shows it.
    pub shown_name: String,
    /// Identity in the log or the text of the fault in it; absent where no
    /// such table is published.
    pub table: Option<Result<u128, String>>,
    pub skip_wal: bool,
    /// Whether there is a log that is written.
    pub persistent: bool,
    /// Cold rows, where the table has an owner of segments.
    pub cold_rows: Option<i32>,
}

/// A truncation in progress.
#[derive(Debug)]
pub struct TruncateRun {
    table: String,
    record: Result<TruncateRecord, Error>,
    persistent: bool,
    cold_rows: Option<i32>,
    phase: TruncatePhase,
    logged: bool,
    end: Option<Result<i32, Error>>,
}

#[verifier::ext_equal]
pub struct TruncateView {
    /// Lowercase name.
    pub table: Seq<char>,
    /// What is owed to the log, or why it may not be logged.
    pub record: Result<TruncateRecord, ErrorView>,
    pub persistent: bool,
    pub cold_rows: Option<i32>,
    pub phase: TruncatePhase,
    /// The record is in the log.
    pub logged: bool,
    pub end: Option<Result<i32, ErrorView>>,
}

impl View for TruncateRun {
    type V = TruncateView;

    closed spec fn view(&self) -> TruncateView {
        TruncateView {
            table: self.table@,
            record: match self.record {
                Ok(record) => Ok(record),
                Err(e) => Err(e@),
            },
            persistent: self.persistent,
            cold_rows: self.cold_rows,
            phase: self.phase,
            logged: self.logged,
            end: match self.end {
                None => None,
                Some(Ok(rows)) => Some(Ok(rows)),
                Some(Err(e)) => Some(Err(e@)),
            },
        }
    }
}

pub open spec fn truncate_at(run: TruncateView, phase: TruncatePhase) -> TruncateView {
    TruncateView { phase, ..run }
}

pub open spec fn truncate_failed(run: TruncateView, error: ErrorView) -> TruncateView {
    TruncateView { phase: TruncatePhase::Done, end: Some(Err(error)), ..run }
}

/// Behind the segments: the file where there can be one, then the hot rows.
pub open spec fn segments_gone(run: TruncateView) -> TruncateView {
    truncate_at(
        run,
        if run.persistent {
            TruncatePhase::RemoveFile
        } else {
            TruncatePhase::ClearHot
        },
    )
}

/// Behind the log: the segments, where there are any.
pub open spec fn record_settled(run: TruncateView) -> TruncateView {
    if run.cold_rows is Some {
        truncate_at(run, TruncatePhase::RemoveSegments)
    } else {
        segments_gone(run)
    }
}

/// At the log: what is owed to it is written, or the truncation is refused.
pub open spec fn at_the_log(run: TruncateView) -> TruncateView {
    match run.record {
        Err(e) => truncate_failed(run, e),
        Ok(TruncateRecord::Record { .. }) => truncate_at(run, TruncatePhase::Record),
        Ok(TruncateRecord::Nothing) => record_settled(run),
    }
}

/// A truncation that starts.
pub open spec fn started_truncation(table: Seq<char>, q: TruncateRequest) -> TruncateView {
    let run = TruncateView {
        table,
        record: truncate_record(table, q.shown_name@, q.table, q.skip_wal, q.persistent),
        persistent: q.persistent,
        cold_rows: q.cold_rows,
        phase: TruncatePhase::TakeBack,
        logged: false,
        end: None,
    };
    if q.cold_rows is Some {
        run
    } else {
        at_the_log(run)
    }
}

/// What follows an event. One that the run does not wait for changes nothing.
pub open spec fn truncate_next(run: TruncateView, event: TruncateEvent) -> TruncateView {
    match (run.phase, event) {
        (TruncatePhase::TakeBack, TruncateEvent::Passed) => at_the_log(run),
        (TruncatePhase::Record, TruncateEvent::Recorded(r)) => match r {
            Err(e) => truncate_failed(run, e@),
            Ok(_) => record_settled(TruncateView { logged: true, ..run }),
        },
        (TruncatePhase::RemoveSegments, TruncateEvent::Removed(r)) => match r {
            Err(text) => truncate_failed(run, uncertain_truncation(run.table, text@)),
            Ok(_) => segments_gone(run),
        },
        (TruncatePhase::RemoveFile, TruncateEvent::Passed) => truncate_at(
            run,
            TruncatePhase::ClearHot,
        ),
        (TruncatePhase::ClearHot, TruncateEvent::Cleared { hot_rows }) => TruncateView {
            phase: TruncatePhase::Done,
            end: Some(
                Ok(
                    saturated_rows(
                        hot_rows + match run.cold_rows {
                            Some(rows) => rows as int,
                            None => 0,
                        },
                    ) as i32,
                ),
            ),
            ..run
        },
        _ => run,
    }
}

/// What a truncation asks for.
pub open spec fn truncate_action(run: TruncateView) -> TruncateAction {
    match run.phase {
        TruncatePhase::TakeBack => TruncateAction::TakeBack,
        TruncatePhase::Record => TruncateAction::Record {
            table_id: run.record->Ok_0->table_id,
        },
        TruncatePhase::RemoveSegments => TruncateAction::RemoveSegments,
        TruncatePhase::RemoveFile => TruncateAction::RemoveFile,
        TruncatePhase::ClearHot => TruncateAction::ClearHot,
        TruncatePhase::Done => TruncateAction::Finish,
    }
}

/// Rows may go: what is owed to the log is in it.
pub open spec fn may_remove(run: TruncateView) -> bool {
    run.record matches Ok(record) && (record is Record ==> run.logged)
}

/// The log agrees with the phase.
pub open spec fn truncate_wf(run: TruncateView) -> bool {
    &&& run.end is Some <==> run.phase == TruncatePhase::Done
    &&& match run.phase {
        TruncatePhase::TakeBack => !run.logged,
        TruncatePhase::Record => !run.logged && (run.record matches Ok(r) && r is Record),
        TruncatePhase::RemoveSegments
        | TruncatePhase::RemoveFile
        | TruncatePhase::ClearHot => may_remove(run),
        TruncatePhase::Done => run.end matches Some(Ok(_)) ==> may_remove(run),
    }
}

/// Starts on a table, under the exclusive catalog fence.
pub fn truncate_table_under_ddl_fence<T>(
    open: bool,
    stores: &NameMap<T>,
    table_name: &str,
    q: &TruncateRequest,
) -> (r: Result<TruncateRun, Error>)
    requires
        stores.wf(),
    ensures
        match r {
            Ok(run) => {
                &&& store_refusal(open, stores@.dom(), lowercase_text(table_name@)) is None
                &&& run@ == started_truncation(lowercase_text(table_name@), *q)
                &&& truncate_wf(run@)
            },
            Err(e) => store_refusal(open, stores@.dom(), lowercase_text(table_name@)) == Some(e@),
        },
{
    let table: String = to_lowercase(table_name);
    match get_version_store(open, false, stores, table.as_str()) {
        Err(e) => {
            return Err(e);
        },
        Ok(_) => {},
    }
    let record: Result<TruncateRecord, Error> = record_truncate_table(
        table.as_str(),
        q.shown_name.as_str(),
        &q.table,
        q.skip_wal,
        q.persistent,
    );
    let mut run = TruncateRun {
        table,
        record,
        persistent: q.persistent,
        cold_rows: q.cold_rows,
        phase: TruncatePhase::TakeBack,
        logged: false,
        end: None,
    };
    if q.cold_rows.is_none() {
        run.reach_log();
    }
    Ok(run)
}

impl TruncateRun {
    pub fn action(&self) -> (r: TruncateAction)
        requires
            truncate_wf(self@),
        ensures
            r == truncate_action(self@),
    {
        match self.phase {
            TruncatePhase::TakeBack => TruncateAction::TakeBack,
            TruncatePhase::Record => match &self.record {
                Ok(TruncateRecord::Record { table_id }) => TruncateAction::Record {
                    table_id: *table_id,
                },
                _ => {
                    assert(false);
                    TruncateAction::Finish
                },
            },
            TruncatePhase::RemoveSegments => TruncateAction::RemoveSegments,
            TruncatePhase::RemoveFile => TruncateAction::RemoveFile,
            TruncatePhase::ClearHot => TruncateAction::ClearHot,
            TruncatePhase::Done => TruncateAction::Finish,
        }
    }

    fn fail(&mut self, error: Error)
        ensures
            final(self)@ == truncate_failed(old(self)@, error@),
    {
        self.phase = TruncatePhase::Done;
        self.end = Some(Err(error));
    }

    fn leave_segments(&mut self)
        ensures
            final(self)@ == segments_gone(old(self)@),
    {
        self.phase = if self.persistent {
            TruncatePhase::RemoveFile
        } else {
            TruncatePhase::ClearHot
        };
    }

    fn settle_record(&mut self)
        ensures
            final(self)@ == record_settled(old(self)@),
    {
        if self.cold_rows.is_some() {
            self.phase = TruncatePhase::RemoveSegments;
        } else {
            self.leave_segments();
        }
    }

    fn reach_log(&mut self)
        ensures
            final(self)@ == at_the_log(old(self)@),
    {
        match &self.record {
            Err(e) => {
                let error: Error = e.duplicate();
                self.fail(error);
            },
            Ok(TruncateRecord::Record { .. }) => {
                self.phase = TruncatePhase::Record;
            },
            Ok(TruncateRecord::Nothing) => self.settle_record(),
        }
    }

    /// Takes in what came of the last step and says what is next.
    pub fn advance(&mut self, event: TruncateEvent) -> (r: TruncateAction)
        requires
            truncate_wf(old(self)@),
        ensures
            truncate_wf(final(self)@),
            final(self)@ == truncate_next(old(self)@, event),
            r == truncate_action(final(self)@),
    {
        match (self.phase, event) {
            (TruncatePhase::TakeBack, TruncateEvent::Passed) => self.reach_log(),
            (TruncatePhase::Record, TruncateEvent::Recorded(r)) => match r {
                Err(e) => self.fail(e),
                Ok(_) => {
                    self.logged = true;
                    self.settle_record();
                },
            },
            (TruncatePhase::RemoveSegments, TruncateEvent::Removed(r)) => match r {
                Err(text) => {
                    let error: Error = truncate_uncertain(self.table.as_str(), text.as_str());
                    self.fail(error);
                },
                Ok(_) => self.leave_segments(),
            },
            (TruncatePhase::RemoveFile, TruncateEvent::Passed) => {
                self.phase = TruncatePhase::ClearHot;
            },
            (TruncatePhase::ClearHot, TruncateEvent::Cleared { hot_rows }) => {
                let cold_rows: i32 = match self.cold_rows {
                    Some(rows) => rows,
                    None => 0,
                };
                self.end = Some(Ok(truncated_rows(hot_rows, cold_rows)));
                self.phase = TruncatePhase::Done;
            },
            _ => {},
        }
        self.action()
    }

    /// How many rows went or why the truncation failed, once it is done.
    pub fn outcome(self) -> (r: Option<Result<i32, Error>>)
        ensures
            match r {
                None => self@.end is None,
                Some(Ok(rows)) => self@.end == Some(Ok::<i32, ErrorView>(rows)),
                Some(Err(e)) => self@.end == Some(Err::<i32, ErrorView>(e@)),
            },
    {
        self.end
    }
}

/// A truncation is logged before its segments go: no event leads to a step
/// that removes rows while a record is owed.
pub proof fn law_truncation_is_logged_first(run: TruncateView, event: TruncateEvent)
    requires
        truncate_wf(run),
    ensures
        truncate_wf(truncate_next(run, event)),
        truncate_action(truncate_next(run, event)) is RemoveSegments || truncate_action(
            truncate_next(run, event),
        ) is ClearHot ==> may_remove(truncate_next(run, event)),
{
}

/// What goes wrong behind the record asks for recovery; what goes wrong before
/// it leaves every row in place.
pub proof fn law_uncertain_truncation_is_logged(run: TruncateView, event: TruncateEvent)
    requires
        truncate_wf(run),
        run.phase != TruncatePhase::Done,
        truncate_next(run, event).end matches Some(Err(_)),
    ensures
        run.phase == TruncatePhase::RemoveSegments ==> may_remove(run) && truncate_next(
            run,
            event,
        ).end->0->Err_0 is WalDurabilityUncertain,
        run.phase != TruncatePhase::RemoveSegments ==> !run.logged,
{
}

} // verus!
