//! Write admission: hot-memory pressure and unmerged-segment pressure.
use crate::error::Error;
use crate::error::ErrorView;
use crate::num::max_64;
use crate::num::sat64;
use crate::num::sat_size;
use crate::num::saturating_mul_size;
use crate::num::spec_max;
use vstd::prelude::*;

verus! {

/// Soft watermark over all tables, in first-seal budgets.
pub const TOTAL_HOT_SOFT_MULTIPLIER: usize = 4;

/// Hard watermark over all tables, in first-seal budgets.
pub const TOTAL_HOT_HARD_MULTIPLIER: usize = 8;

/// Total hot bytes at which background draining starts.
pub fn total_hot_soft_threshold(first_seal_bytes: usize) -> (r: usize)
    ensures
        r == sat_size(first_seal_bytes * TOTAL_HOT_SOFT_MULTIPLIER),
{
    saturating_mul_size(first_seal_bytes, TOTAL_HOT_SOFT_MULTIPLIER)
}

/// Total hot bytes at which a writer waits for one completed drain cycle.
pub fn total_hot_hard_threshold(first_seal_bytes: usize) -> (r: usize)
    ensures
        r == sat_size(first_seal_bytes * TOTAL_HOT_HARD_MULTIPLIER),
{
    saturating_mul_size(first_seal_bytes, TOTAL_HOT_HARD_MULTIPLIER)
}

/// Draining starts no later than writers begin to wait.
pub proof fn law_soft_watermark_is_below_hard(first_seal_bytes: usize)
    ensures
        sat_size(first_seal_bytes * TOTAL_HOT_SOFT_MULTIPLIER) <= sat_size(
            first_seal_bytes * TOTAL_HOT_HARD_MULTIPLIER,
        ),
{
}

/// How one pressure-seal cycle ended.
#[derive(Clone, Copy, Debug, PartialEq, Eq, Structural)]
pub enum PressureSealCycleOutcome {
    Idle,
    Completed,
    Superseded,
}

impl PressureSealCycleOutcome {
    /// Only a completed cycle keeps the request armed, and only while
    /// pressure remains.
    pub fn keeps_request_armed(self, pressure_remains: bool) -> (r: bool)
        ensures
            r == (self == PressureSealCycleOutcome::Completed && pressure_remains),
    {
        match self {
            PressureSealCycleOutcome::Completed => pressure_remains,
            PressureSealCycleOutcome::Idle => false,
            PressureSealCycleOutcome::Superseded => false,
        }
    }
}

/// Coordination of the memory-pressure seal worker with committing writers.
///
/// The owner serialises access; a writer that is told to wait blocks until
/// [`PressureSealControl::may_proceed`] holds for the ticket it was given.
#[derive(Debug, Clone, Copy, PartialEq, Eq, Structural)]
pub struct PressureSealControl {
    pub requested: bool,
    pub worker_active: bool,
    pub completed_cycles: u64,
}

impl PressureSealControl {
    pub fn new() -> (r: Self)
        ensures
            r == (PressureSealControl { requested: false, worker_active: false, completed_cycles: 0 }),
    {
        PressureSealControl { requested: false, worker_active: false, completed_cycles: 0 }
    }

    /// Arms the request.
    pub fn request(&mut self)
        ensures
            *final(self) == (PressureSealControl { requested: true, ..*old(self) }),
    {
        self.requested = true;
    }

    /// A committing writer asks whether to wait. It gets the cycle to wait
    /// out, or nothing where no active worker owes it a cycle.
    pub fn wait_before_commit(&self) -> (ticket: Option<u64>)
        ensures
            ticket == if self.requested && self.worker_active {
                Some(self.completed_cycles)
            } else {
                None
            },
    {
        if !self.requested || !self.worker_active {
            return None;
        }
        Some(self.completed_cycles)
    }

    /// The wait for a ticket is over.
    pub open spec fn is_released(self, ticket: u64) -> bool {
        !self.requested || !self.worker_active || self.completed_cycles != ticket
    }

    /// Whether a waiting writer may go on.
    pub fn may_proceed(&self, ticket: u64) -> (r: bool)
        ensures
            r == self.is_released(ticket),
    {
        !(self.requested && self.worker_active && self.completed_cycles == ticket)
    }

    /// Ends one cycle; the request may stay armed for the next.
    pub fn finish_cycle(&mut self, still_requested: bool)
        ensures
            *final(self) == (PressureSealControl {
                requested: still_requested,
                completed_cycles: old(self).completed_cycles.wrapping_add(1),
                ..*old(self)
            }),
    {
        self.requested = still_requested;
        self.completed_cycles = self.completed_cycles.wrapping_add(1);
    }

    pub fn worker_started(&mut self)
        ensures
            *final(self) == (PressureSealControl { worker_active: true, ..*old(self) }),
    {
        self.worker_active = true;
    }

    pub fn worker_stopped(&mut self)
        ensures
            *final(self) == (PressureSealControl {
                worker_active: false,
                requested: false,
                ..*old(self)
            }),
    {
        self.worker_active = false;
        self.requested = false;
    }
}

/// A writer waits for at most one cycle, however the cycle ends and whether or
/// not the request stays armed; a stopping worker releases it as well.
pub proof fn law_wait_is_bounded_by_one_cycle(
    control: PressureSealControl,
    ticket: u64,
    after_cycle: PressureSealControl,
    after_stop: PressureSealControl,
    still_requested: bool,
)
    requires
        ticket == control.completed_cycles,
        after_cycle == (PressureSealControl {
            requested: still_requested,
            completed_cycles: control.completed_cycles.wrapping_add(1),
            ..control
        }),
        after_stop == (PressureSealControl { worker_active: false, requested: false, ..control }),
    ensures
        after_cycle.is_released(ticket),
        after_stop.is_released(ticket),
{
}

/// Unmerged segments of one table.
#[derive(Debug, Clone, Copy, PartialEq, Eq, Structural)]
pub struct L0DebtSnapshot {
    pub segments: u64,
    pub physical_bytes: u64,
}

/// Limits on unmerged segments.
#[derive(Debug, Clone, Copy, PartialEq, Eq, Structural)]
pub struct L0PressureLimits {
    pub soft_segments: u64,
    pub hard_segments: u64,
    pub soft_bytes: u64,
    pub hard_bytes: u64,
    pub soft_wait_millis: u64,
}

#[derive(Debug, Clone, Copy, PartialEq, Eq, Structural)]
pub enum L0PressureLevel {
    Normal,
    Soft,
    Hard,
}

/// Severity of a level.
pub open spec fn severity(level: L0PressureLevel) -> int {
    match level {
        L0PressureLevel::Normal => 0,
        L0PressureLevel::Soft => 1,
        L0PressureLevel::Hard => 2,
    }
}

pub open spec fn l0_pressure(debt: L0DebtSnapshot, limits: L0PressureLimits) -> L0PressureLevel {
    if debt.segments >= limits.hard_segments || debt.physical_bytes >= limits.hard_bytes {
        L0PressureLevel::Hard
    } else if debt.segments >= limits.soft_segments || debt.physical_bytes >= limits.soft_bytes {
        L0PressureLevel::Soft
    } else {
        L0PressureLevel::Normal
    }
}

/// Classifies a table's debt against the limits.
pub fn classify_l0_pressure(debt: L0DebtSnapshot, limits: L0PressureLimits) -> (
    level: L0PressureLevel)
    ensures
        level == l0_pressure(debt, limits),
{
    if debt.segments >= limits.hard_segments || debt.physical_bytes >= limits.hard_bytes {
        L0PressureLevel::Hard
    } else if debt.segments >= limits.soft_segments || debt.physical_bytes >= limits.soft_bytes {
        L0PressureLevel::Soft
    } else {
        L0PressureLevel::Normal
    }
}

/// More debt never lowers the pressure.
pub proof fn law_pressure_is_monotone(
    less: L0DebtSnapshot,
    more: L0DebtSnapshot,
    limits: L0PressureLimits,
)
    requires
        less.segments <= more.segments,
        less.physical_bytes <= more.physical_bytes,
    ensures
        severity(l0_pressure(less, limits)) <= severity(l0_pressure(more, limits)),
{
}

pub open spec fn effective_l0_limits(
    soft_segments: usize,
    hard_segments: usize,
    soft_bytes: u64,
    hard_bytes: u64,
    soft_wait_millis: u64,
) -> L0PressureLimits {
    let soft_s = spec_max(soft_segments as int, 1);
    let soft_b = spec_max(soft_bytes as int, 1);
    L0PressureLimits {
        soft_segments: soft_s as u64,
        hard_segments: spec_max(hard_segments as int, sat64(soft_s + 1)) as u64,
        soft_bytes: soft_b as u64,
        hard_bytes: spec_max(hard_bytes as int, sat64(soft_b + 1)) as u64,
        soft_wait_millis,
    }
}

/// Limits as configured, made usable: every limit is positive and each hard
/// limit lies above its soft one.
pub fn l0_pressure_limits(
    soft_limit_segments: usize,
    hard_limit_segments: usize,
    soft_limit_bytes: u64,
    hard_limit_bytes: u64,
    soft_wait_millis: u64,
) -> (limits: L0PressureLimits)
    ensures
        limits == effective_l0_limits(
            soft_limit_segments,
            hard_limit_segments,
            soft_limit_bytes,
            hard_limit_bytes,
            soft_wait_millis,
        ),
{
    let soft_segments: u64 = max_64(soft_limit_segments as u64, 1);
    let soft_bytes: u64 = max_64(soft_limit_bytes, 1);
    L0PressureLimits {
        soft_segments,
        hard_segments: max_64(hard_limit_segments as u64, soft_segments.saturating_add(1)),
        soft_bytes,
        hard_bytes: max_64(hard_limit_bytes, soft_bytes.saturating_add(1)),
        soft_wait_millis,
    }
}

/// Where the soft limit is not already the largest number, hard pressure
/// starts strictly above soft pressure.
pub proof fn law_hard_limits_exceed_soft(
    soft_segments: usize,
    hard_segments: usize,
    soft_bytes: u64,
    hard_bytes: u64,
    soft_wait_millis: u64,
)
    ensures
        ({
            let limits = effective_l0_limits(
                soft_segments,
                hard_segments,
                soft_bytes,
                hard_bytes,
                soft_wait_millis,
            );
            &&& 1 <= limits.soft_segments <= limits.hard_segments
            &&& 1 <= limits.soft_bytes <= limits.hard_bytes
            &&& limits.soft_segments < u64::MAX ==> limits.soft_segments < limits.hard_segments
            &&& limits.soft_bytes < u64::MAX ==> limits.soft_bytes < limits.hard_bytes
        }),
{
}

/// A touched table with its debt.
#[derive(Debug)]
pub struct TableDebt {
    pub table: String,
    pub debt: L0DebtSnapshot,
}

/// Index of the table that decides admission: the first under hard pressure,
/// else the first under soft pressure.
pub open spec fn deciding_table(
    tables: Seq<TableDebt>,
    limits: L0PressureLimits,
    chosen: Option<int>,
) -> bool {
    match chosen {
        None => forall|i: int|
            0 <= i < tables.len() ==> l0_pressure((#[trigger] tables[i]).debt, limits)
                == L0PressureLevel::Normal,
        Some(c) => {
            &&& 0 <= c < tables.len()
            &&& l0_pressure(tables[c].debt, limits) != L0PressureLevel::Normal
            &&& forall|i: int|
                0 <= i < tables.len() ==> severity(
                    l0_pressure((#[trigger] tables[i]).debt, limits),
                ) <= severity(l0_pressure(tables[c].debt, limits))
            &&& forall|i: int|
                0 <= i < c ==> severity(l0_pressure((#[trigger] tables[i]).debt, limits))
                    < severity(l0_pressure(tables[c].debt, limits))
        },
    }
}

/// The table that holds up a commit, if any.
pub fn touched_l0_pressure(
    touched: &Vec<TableDebt>,
    limits: L0PressureLimits,
) -> (r: Option<(usize, L0PressureLevel)>)
    ensures
        deciding_table(
            touched@,
            limits,
            match r {
                Some((i, _)) => Some(i as int),
                None => None,
            },
        ),
        r matches Some((i, level)) ==> level == l0_pressure(touched@[i as int].debt, limits),
{
    let mut soft: Option<usize> = None;
    let mut i: usize = 0;
    while i < touched.len()
        invariant
            0 <= i <= touched@.len(),
            forall|j: int|
                0 <= j < i ==> l0_pressure((#[trigger] touched@[j]).debt, limits)
                    != L0PressureLevel::Hard,
            match soft {
                None => forall|j: int|
                    0 <= j < i ==> l0_pressure((#[trigger] touched@[j]).debt, limits)
                        == L0PressureLevel::Normal,
                Some(s) => {
                    &&& s < i
                    &&& l0_pressure(touched@[s as int].debt, limits) == L0PressureLevel::Soft
                    &&& forall|j: int|
                        0 <= j < s ==> l0_pressure((#[trigger] touched@[j]).debt, limits)
                            == L0PressureLevel::Normal
                },
            },
        decreases touched@.len() - i,
    {
        match classify_l0_pressure(touched[i].debt, limits) {
            L0PressureLevel::Hard => {
                return Some((i, L0PressureLevel::Hard));
            },
            L0PressureLevel::Soft => {
                if soft.is_none() {
                    soft = Some(i);
                }
            },
            L0PressureLevel::Normal => {},
        }
        i = i + 1;
    }
    match soft {
        Some(s) => Some((s, L0PressureLevel::Soft)),
        None => None,
    }
}

/// Counters of the compaction back-pressure.
#[derive(Debug, Clone, Copy, PartialEq, Eq, Structural)]
pub struct BackpressureCounters {
    pub soft_waits: u64,
    pub soft_wait_millis: u64,
    pub hard_rejections: u64,
}

/// What a committing writer does next.
#[derive(Debug)]
pub enum AdmissionStep {
    /// Go on with the commit.
    Admit,
    /// Refuse the commit.
    Reject(Error),
    /// Sleep briefly and look again.
    Wait,
}

/// Soft pressure has been waited out.
pub open spec fn soft_wait_is_over(limits: L0PressureLimits, elapsed_millis: u64) -> bool {
    limits.soft_wait_millis == 0 || elapsed_millis >= limits.soft_wait_millis
}

pub open spec fn backpressure_error(table: TableDebt, limits: L0PressureLimits) -> ErrorView {
    ErrorView::CompactionBackpressure(
        table.table@,
        table.debt.segments as int,
        table.debt.physical_bytes as int,
        limits.hard_segments as int,
        limits.hard_bytes as int,
    )
}

/// One look at compaction pressure before a commit.
///
/// Without pressure the writer goes on. Hard pressure refuses it. Soft
/// pressure holds it until the configured wait is over; the first such look
/// counts one wait, and whatever ends the wait adds the time it took. The
/// second flag of the result asks for a compaction.
pub fn wait_for_compaction_pressure(
    touched: &Vec<TableDebt>,
    limits: L0PressureLimits,
    elapsed_millis: u64,
    soft_wait_recorded: &mut bool,
    counters: &mut BackpressureCounters,
) -> (r: (AdmissionStep, bool))
    ensures
        exists|chosen: Option<int>| #[trigger]
            deciding_table(touched@, limits, chosen) && {
                let level = match chosen {
                    None => L0PressureLevel::Normal,
                    Some(c) => l0_pressure(touched@[c].debt, limits),
                };
                &&& r.1 == (chosen is Some)
                &&& match r.0 {
                    AdmissionStep::Admit => level == L0PressureLevel::Normal || (level
                        == L0PressureLevel::Soft && soft_wait_is_over(limits, elapsed_millis)),
                    AdmissionStep::Reject(e) => level == L0PressureLevel::Hard && e@
                        == backpressure_error(touched@[chosen->0], limits),
                    AdmissionStep::Wait => level == L0PressureLevel::Soft && !soft_wait_is_over(
                        limits,
                        elapsed_millis,
                    ),
                }
                &&& *final(soft_wait_recorded) == (*old(soft_wait_recorded) || level
                    == L0PressureLevel::Soft)
                &&& final(counters).hard_rejections == if level == L0PressureLevel::Hard {
                    old(counters).hard_rejections.wrapping_add(1)
                } else {
                    old(counters).hard_rejections
                }
                &&& final(counters).soft_waits == if level == L0PressureLevel::Soft && !*old(
                    soft_wait_recorded,
                ) {
                    old(counters).soft_waits.wrapping_add(1)
                } else {
                    old(counters).soft_waits
                }
                &&& final(counters).soft_wait_millis == if *final(soft_wait_recorded)
                    && !(r.0 is Wait) {
                    old(counters).soft_wait_millis.wrapping_add(elapsed_millis)
                } else {
                    old(counters).soft_wait_millis
                }
            },
{
    match touched_l0_pressure(touched, limits) {
        None => {
            if *soft_wait_recorded {
                counters.soft_wait_millis = counters.soft_wait_millis.wrapping_add(elapsed_millis);
            }
            assert(deciding_table(touched@, limits, None));
            (AdmissionStep::Admit, false)
        },
        Some((i, level)) => {
            assert(deciding_table(touched@, limits, Some(i as int)));
            match level {
                L0PressureLevel::Hard => {
                    if *soft_wait_recorded {
                        counters.soft_wait_millis = counters.soft_wait_millis.wrapping_add(
                            elapsed_millis,
                        );
                    }
                    counters.hard_rejections = counters.hard_rejections.wrapping_add(1);
                    let error: Error = Error::CompactionBackpressure {
                        table: touched[i].table.clone(),
                        segments: touched[i].debt.segments,
                        physical_bytes: touched[i].debt.physical_bytes,
                        hard_segments: limits.hard_segments,
                        hard_bytes: limits.hard_bytes,
                    };
                    (AdmissionStep::Reject(error), true)
                },
                _ => {
                    if !*soft_wait_recorded {
                        counters.soft_waits = counters.soft_waits.wrapping_add(1);
                        *soft_wait_recorded = true;
                    }
                    if limits.soft_wait_millis == 0 || elapsed_millis >= limits.soft_wait_millis {
                        counters.soft_wait_millis = counters.soft_wait_millis.wrapping_add(
                            elapsed_millis,
                        );
                        (AdmissionStep::Admit, true)
                    } else {
                        (AdmissionStep::Wait, true)
                    }
                },
            }
        },
    }
}

/// Committed hot state of one table.
#[derive(Debug, Clone, Copy, PartialEq, Eq, Structural)]
pub struct HotTable {
    pub hot_bytes: usize,
    /// The table already owns cold segments.
    pub has_segments: bool,
}

/// Hot bytes of the first `n` tables, not more than the largest number.
pub open spec fn total_hot_bytes(tables: Seq<HotTable>, n: int) -> int
    decreases n,
{
    if n <= 0 {
        0
    } else {
        sat_size(total_hot_bytes(tables, n - 1) + tables[n - 1].hot_bytes)
    }
}

/// A table has outgrown its seal budget: the incremental one once it owns
/// segments, the first-seal one before that.
pub open spec fn exceeds_budget(
    table: HotTable,
    first_bytes: usize,
    incremental_bytes: usize,
) -> bool {
    table.hot_bytes >= if table.has_segments {
        incremental_bytes
    } else {
        first_bytes
    }
}

pub open spec fn any_exceeds_budget(
    tables: Seq<HotTable>,
    first_bytes: usize,
    incremental_bytes: usize,
) -> bool {
    exists|i: int|
        0 <= i < tables.len() && exceeds_budget(
            #[trigger] tables[i],
            first_bytes,
            incremental_bytes,
        )
}

fn sum_hot_bytes(tables: &Vec<HotTable>) -> (r: usize)
    ensures
        r == total_hot_bytes(tables@, tables@.len() as int),
{
    let mut total: usize = 0;
    let mut i: usize = 0;
    while i < tables.len()
        invariant
            0 <= i <= tables@.len(),
            total == total_hot_bytes(tables@, i as int),
        decreases tables@.len() - i,
    {
        total = total.saturating_add(tables[i].hot_bytes);
        i = i + 1;
    }
    total
}

fn any_table_exceeds(
    tables: &Vec<HotTable>,
    first_bytes: usize,
    incremental_bytes: usize,
) -> (r: bool)
    ensures
        r == any_exceeds_budget(tables@, first_bytes, incremental_bytes),
{
    let mut i: usize = 0;
    while i < tables.len()
        invariant
            0 <= i <= tables@.len(),
            forall|j: int|
                0 <= j < i ==> !exceeds_budget(
                    #[trigger] tables@[j],
                    first_bytes,
                    incremental_bytes,
                ),
        decreases tables@.len() - i,
    {
        let table: HotTable = tables[i];
        let limit: usize = if table.has_segments {
            incremental_bytes
        } else {
            first_bytes
        };
        if table.hot_bytes >= limit {
            assert(exceeds_budget(tables@[i as int], first_bytes, incremental_bytes));
            return true;
        }
        i = i + 1;
    }
    false
}

/// Hot bytes that call for a table's first seal, and for a later one.
#[derive(Debug, Clone, Copy, PartialEq, Eq, Structural)]
pub struct SealThresholds {
    pub first_bytes: usize,
    pub incremental_bytes: usize,
}

/// Bytes that call for a first seal where the configuration cannot be read.
pub const FALLBACK_FIRST_SEAL_BYTES: usize = 67_108_864;

/// Bytes that call for a later seal where the configuration cannot be read.
pub const FALLBACK_INCREMENTAL_SEAL_BYTES: usize = 16_777_216;

impl SealThresholds {
    /// The thresholds that were read, or their fallback.
    pub fn read_or_fallback(read: Option<SealThresholds>) -> (r: Self)
        ensures
            r == (match read {
                Some(thresholds) => thresholds,
                None => (SealThresholds {
                    first_bytes: FALLBACK_FIRST_SEAL_BYTES,
                    incremental_bytes: FALLBACK_INCREMENTAL_SEAL_BYTES,
                }),
            }),
    {
        match read {
            Some(thresholds) => thresholds,
            None => SealThresholds {
                first_bytes: FALLBACK_FIRST_SEAL_BYTES,
                incremental_bytes: FALLBACK_INCREMENTAL_SEAL_BYTES,
            },
        }
    }
}

/// Committed hot state crossed a table's budget or the soft watermark.
pub fn hot_seal_pressure_exceeded(
    tables: &Vec<HotTable>,
    first_bytes: usize,
    incremental_bytes: usize,
) -> (r: bool)
    ensures
        r == (total_hot_bytes(tables@, tables@.len() as int) >= sat_size(
            first_bytes * TOTAL_HOT_SOFT_MULTIPLIER,
        ) || any_exceeds_budget(tables@, first_bytes, incremental_bytes)),
{
    if sum_hot_bytes(tables) >= total_hot_soft_threshold(first_bytes) {
        return true;
    }
    any_table_exceeds(tables, first_bytes, incremental_bytes)
}

/// The tables a transaction touched crossed a seal budget, or all tables
/// together crossed the soft watermark. A transaction without tables never
/// asks for a seal.
pub fn touched_tables_exceed_seal_pressure(
    all: &Vec<HotTable>,
    touched_any: bool,
    touched: &Vec<HotTable>,
    first_bytes: usize,
    incremental_bytes: usize,
) -> (r: bool)
    ensures
        r == (touched_any && (total_hot_bytes(all@, all@.len() as int) >= sat_size(
            first_bytes * TOTAL_HOT_SOFT_MULTIPLIER,
        ) || any_exceeds_budget(touched@, first_bytes, incremental_bytes))),
{
    if !touched_any {
        return false;
    }
    if sum_hot_bytes(all) >= total_hot_soft_threshold(first_bytes) {
        return true;
    }
    any_table_exceeds(touched, first_bytes, incremental_bytes)
}

/// A commit has to wait for a drain cycle: some table outgrew its budget, or
/// all tables together reached the hard watermark.
pub fn hot_storage_requires_backpressure(
    tables: &Vec<HotTable>,
    first_bytes: usize,
    incremental_bytes: usize,
) -> (r: bool)
    ensures
        r == (total_hot_bytes(tables@, tables@.len() as int) >= sat_size(
            first_bytes * TOTAL_HOT_HARD_MULTIPLIER,
        ) || any_exceeds_budget(tables@, first_bytes, incremental_bytes)),
{
    if sum_hot_bytes(tables) >= total_hot_hard_threshold(first_bytes) {
        return true;
    }
    any_table_exceeds(tables, first_bytes, incremental_bytes)
}

/// A commit that waits has made the seal worker run: back-pressure implies
/// that pressure sealing is due as well.
pub proof fn law_backpressure_implies_seal_pressure(
    tables: Seq<HotTable>,
    first_bytes: usize,
    incremental_bytes: usize,
)
    requires
        total_hot_bytes(tables, tables.len() as int) >= sat_size(
            first_bytes * TOTAL_HOT_HARD_MULTIPLIER,
        ) || any_exceeds_budget(tables, first_bytes, incremental_bytes),
    ensures
        total_hot_bytes(tables, tables.len() as int) >= sat_size(
            first_bytes * TOTAL_HOT_SOFT_MULTIPLIER,
        ) || any_exceeds_budget(tables, first_bytes, incremental_bytes),
{
}

/// Some table is under at least soft pressure.
pub fn l0_soft_pressure_exceeded(
    debts: &Vec<L0DebtSnapshot>,
    limits: L0PressureLimits,
) -> (r: bool)
    ensures
        r == exists|i: int|
            0 <= i < debts@.len() && l0_pressure(#[trigger] debts@[i], limits)
                != L0PressureLevel::Normal,
{
    let mut i: usize = 0;
    while i < debts.len()
        invariant
            0 <= i <= debts@.len(),
            forall|j: int|
                0 <= j < i ==> l0_pressure(#[trigger] debts@[j], limits)
                    == L0PressureLevel::Normal,
        decreases debts@.len() - i,
    {
        match classify_l0_pressure(debts[i], limits) {
            L0PressureLevel::Normal => {},
            _ => {
                return true;
            },
        }
        i = i + 1;
    }
    false
}

/// What a pressure-seal cycle that found its turn does.
pub fn pressure_seal_cycle_outcome(
    persistence_enabled: bool,
    pressure_exceeded: bool,
    stale_publication: bool,
) -> (r: PressureSealCycleOutcome)
    ensures
        r == if !persistence_enabled || !pressure_exceeded {
            PressureSealCycleOutcome::Idle
        } else if stale_publication {
            PressureSealCycleOutcome::Superseded
        } else {
            PressureSealCycleOutcome::Completed
        },
{
    if !persistence_enabled || !pressure_exceeded {
        PressureSealCycleOutcome::Idle
    } else if stale_publication {
        PressureSealCycleOutcome::Superseded
    } else {
        PressureSealCycleOutcome::Completed
    }
}

} // verus!
