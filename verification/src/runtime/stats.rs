//! The engine's statistics at one moment.
//!
//! Every owner is sampled without waiting for it, and only so many owners are
//! visited. What could not be sampled is named, and so is what was cut short:
//! totals are lower bounds then.
use super::maintenance::EngineMaintenanceSnapshot;
use super::operation::RUNTIME_STATS_MAX_ACTIVE_SEGMENT_IDS;
use crate::compaction::cooldown::CooldownSnapshot;
use crate::num::monus;
use crate::num::sat64;
use crate::num::spec_min;
use crate::pressure::effective_l0_limits;
use crate::pressure::l0_pressure_limits;
use crate::pressure::L0PressureLimits;
use crate::sort::lemma_names_push;
use crate::sort::names_of;
use crate::sort::sorted_unique_names;
use crate::sort::strictly_ascending_names;
use vstd::prelude::*;
use vstd::string::StringExecFns;

verus! {

pub const RUNTIME_STATS_MAX_TABLES: usize = 4096;

pub const RUNTIME_STATS_MAX_SEGMENTS: usize = 16384;

pub const RUNTIME_STATS_MAX_TRANSACTIONS: usize = 4096;

pub const RUNTIME_STATS_MAX_STAGING_TABLES: usize = 16384;

/// How many owners a snapshot visits at most.
#[derive(Debug, Clone, Copy, PartialEq, Eq, Structural)]
pub struct EngineRuntimeVisitLimits {
    pub max_tables: u64,
    pub max_segments: u64,
    pub max_transactions: u64,
    pub max_staging_tables: u64,
    pub max_active_segment_ids: u64,
}

/// The registry of transactions.
#[derive(Debug, Clone, Copy, PartialEq, Eq, Structural)]
pub struct TransactionSample {
    pub active: u64,
    pub accepting: bool,
    pub oldest_begin_sequence: Option<i64>,
    pub oldest_begin_timestamp_nanos: Option<i64>,
    /// Absent where the wait graph was busy.
    pub wait_edges: Option<u64>,
    pub registry_busy: bool,
    pub truncated: bool,
}

/// The hot rows of one table.
#[derive(Debug, Clone, Copy, PartialEq, Eq, Structural)]
pub struct HotSample {
    pub rows: u64,
    pub bytes: u64,
}

#[derive(Debug, Clone, Copy, PartialEq, Eq, Structural)]
pub struct HotTotals {
    pub tables: u64,
    pub rows: u64,
    pub bytes: u64,
}

#[derive(Debug, Clone, Copy, PartialEq, Eq, Structural)]
pub struct StagingTotals {
    pub transactions: u64,
    pub tables: u64,
    pub rows: u64,
    /// A store could not be read.
    pub busy: bool,
    /// There are more tables than a snapshot visits.
    pub full: bool,
}

/// What the cold storage of one table holds.
#[derive(Debug, Clone, Copy, PartialEq, Eq, Structural)]
pub struct ColdSizes {
    pub segments: u64,
    pub unleveled_segments: u64,
    pub l0_segments: u64,
    pub l1_segments: u64,
    pub l0_debt_physical_bytes: u64,
    pub rows: u64,
    pub resident_bytes: u64,
    pub metadata_bytes: u64,
    pub row_id_bytes: u64,
    pub exact_index_bytes: u64,
    pub ordered_index_bytes: u64,
    pub descriptor_bytes: u64,
    pub column_payload_bytes: u64,
    pub tombstones: u64,
}

/// A sample of one table's cold storage.
#[derive(Debug, Clone, Copy, PartialEq, Eq, Structural)]
pub struct ColdOwner {
    pub sizes: ColdSizes,
    pub level_metadata_busy: bool,
    pub truncated: bool,
}

#[derive(Debug, Clone, Copy, PartialEq, Eq, Structural)]
pub struct ColdTotals {
    pub tables: u64,
    pub sizes: ColdSizes,
    pub busy: bool,
    pub full: bool,
}

/// Configuration that a snapshot shows.
#[derive(Debug, Clone, Copy, PartialEq, Eq, Structural)]
pub struct ConfigSample {
    pub read_queue_depth: u64,
    pub max_compaction_jobs: u64,
    pub max_compaction_input_segments: u64,
    pub max_compaction_input_bytes: u64,
    pub max_compaction_output_bytes: u64,
    pub compaction_job_time_budget_ms: u64,
    pub compaction_io_bytes_per_sec: u64,
    pub compaction_disk_reserve_bytes: u64,
    pub compaction_retry_cooldown_ms: u64,
    pub l0_soft_limit_segments: usize,
    pub l0_hard_limit_segments: usize,
    pub l0_soft_limit_bytes: u64,
    pub l0_hard_limit_bytes: u64,
}

#[derive(Debug, Clone, Copy, PartialEq, Eq, Structural)]
pub struct ConfigReport {
    pub read_queue_depth: u64,
    pub max_compaction_jobs: u64,
    pub max_compaction_input_segments: u64,
    pub max_compaction_input_bytes: u64,
    pub max_compaction_output_bytes: u64,
    pub compaction_job_time_budget_ms: u64,
    pub compaction_io_bytes_per_sec: u64,
    pub compaction_disk_reserve_bytes: u64,
    pub compaction_retry_cooldown_ms: u64,
    pub l0_soft_limit_segments: u64,
    pub l0_hard_limit_segments: u64,
    pub l0_soft_limit_bytes: u64,
    pub l0_hard_limit_bytes: u64,
}

/// State of the log.
#[derive(Debug, Clone, Copy, PartialEq, Eq, Structural)]
pub struct WalSample {
    pub current_lsn: u64,
    pub current_file_bytes: u64,
    pub max_file_bytes: u64,
    pub running: bool,
    /// Absent where the buffer was busy.
    pub pending_durability_bytes: Option<u64>,
    pub last_checkpoint_unix_nanos: i64,
}

#[derive(Debug, Clone, Copy, PartialEq, Eq, Structural)]
pub struct WalReport {
    pub current_lsn: u64,
    pub current_file_bytes: u64,
    pub max_file_bytes: u64,
    pub running: bool,
    pub pending_durability_bytes: u64,
    pub last_checkpoint_unix_nanos: i64,
}

/// Flags and counters that are read without a lock.
#[derive(Debug, Clone, Copy, PartialEq, Eq, Structural)]
pub struct RuntimeFlags {
    pub schema_epoch: u64,
    pub pressure_seal_requested: bool,
    pub compaction_requested: bool,
    pub compaction_running: bool,
    pub compaction_active_jobs: u64,
    pub compaction_peak_active_jobs: u64,
    pub compaction_soft_backpressure_waits: u64,
    pub compaction_soft_backpressure_wait_millis: u64,
    pub compaction_hard_backpressure_rejections: u64,
    pub checkpoint_mutex_busy: bool,
    pub page_cache_warmup_busy: bool,
}

/// The statistics.
#[derive(Debug)]
pub struct EngineRuntimeStatsV2 {
    pub format: u32,
    pub sequence: u64,
    pub captured_unix_millis: u64,
    pub complete: bool,
    pub missing_evidence: Vec<String>,
    pub truncated_owners: Vec<String>,
    pub lifecycle: String,
    pub active_transactions: u64,
    pub accepting_transactions: bool,
    pub oldest_transaction_begin_sequence: Option<i64>,
    pub oldest_transaction_age_millis: Option<u64>,
    pub transaction_wait_edges: Option<u64>,
    pub hot: HotTotals,
    pub staging: StagingTotals,
    pub cold: ColdTotals,
    pub config: ConfigReport,
    pub cooldown: CooldownSnapshot,
    pub wal: WalReport,
    pub seal_running: bool,
    pub checkpoint_running: bool,
    pub flags: RuntimeFlags,
    pub maintenance: EngineMaintenanceSnapshot,
    pub owner_visit_limits: EngineRuntimeVisitLimits,
}

/// Rows or bytes of the first `n` tables.
pub open spec fn hot_rows(samples: Seq<HotSample>, n: int) -> int
    decreases n,
{
    if n <= 0 {
        0
    } else {
        sat64(hot_rows(samples, n - 1) + samples[n - 1].rows)
    }
}

pub open spec fn hot_bytes(samples: Seq<HotSample>, n: int) -> int
    decreases n,
{
    if n <= 0 {
        0
    } else {
        sat64(hot_bytes(samples, n - 1) + samples[n - 1].bytes)
    }
}

pub open spec fn visited_tables(count: nat) -> int {
    spec_min(count as int, RUNTIME_STATS_MAX_TABLES as int)
}

/// Totals of the hot rows; nothing where the owners were busy.
pub fn hot_totals(samples: &Option<Vec<HotSample>>) -> (r: HotTotals)
    ensures
        match samples {
            None => r == (HotTotals { tables: 0, rows: 0, bytes: 0 }),
            Some(s) => r.tables == s@.len() && r.rows == hot_rows(s@, visited_tables(s@.len()))
                && r.bytes == hot_bytes(s@, visited_tables(s@.len())),
        },
{
    let samples: &Vec<HotSample> = match samples {
        None => {
            return HotTotals { tables: 0, rows: 0, bytes: 0 };
        },
        Some(s) => s,
    };
    let n: usize = if samples.len() < RUNTIME_STATS_MAX_TABLES {
        samples.len()
    } else {
        RUNTIME_STATS_MAX_TABLES
    };
    let mut rows: u64 = 0;
    let mut bytes: u64 = 0;
    let mut i: usize = 0;
    while i < n
        invariant
            0 <= i <= n <= samples@.len(),
            rows == hot_rows(samples@, i as int),
            bytes == hot_bytes(samples@, i as int),
        decreases n - i,
    {
        rows = rows.saturating_add(samples[i].rows);
        bytes = bytes.saturating_add(samples[i].bytes);
        i = i + 1;
    }
    HotTotals { tables: samples.len() as u64, rows, bytes }
}

/// One staged table more. A full count stays as it is.
pub open spec fn staged_one(totals: StagingTotals, store: Option<u64>) -> StagingTotals {
    if totals.full {
        totals
    } else if totals.tables >= RUNTIME_STATS_MAX_STAGING_TABLES {
        StagingTotals { full: true, ..totals }
    } else {
        match store {
            Some(count) => StagingTotals {
                tables: (totals.tables + 1) as u64,
                rows: sat64(totals.rows + count) as u64,
                ..totals
            },
            None => StagingTotals { tables: (totals.tables + 1) as u64, busy: true, ..totals },
        }
    }
}

/// The first `n` tables of a transaction.
pub open spec fn staged_tables(totals: StagingTotals, stores: Seq<Option<u64>>, n: int) -> StagingTotals
    decreases n,
{
    if n <= 0 {
        totals
    } else {
        staged_one(staged_tables(totals, stores, n - 1), stores[n - 1])
    }
}

/// The first `n` transactions.
pub open spec fn staged(
    totals: StagingTotals,
    transactions: Seq<Vec<Option<u64>>>,
    n: int,
) -> StagingTotals
    decreases n,
{
    if n <= 0 {
        totals
    } else {
        let before = staged(totals, transactions, n - 1);
        staged_tables(before, transactions[n - 1]@, transactions[n - 1]@.len() as int)
    }
}

proof fn lemma_full_tables(totals: StagingTotals, stores: Seq<Option<u64>>, k: int, n: int)
    requires
        0 <= k <= n,
        staged_tables(totals, stores, k).full,
    ensures
        staged_tables(totals, stores, n) == staged_tables(totals, stores, k),
    decreases n - k,
{
    if k < n {
        lemma_full_tables(totals, stores, k, n - 1);
    }
}

proof fn lemma_full_transactions(
    totals: StagingTotals,
    transactions: Seq<Vec<Option<u64>>>,
    k: int,
    n: int,
)
    requires
        0 <= k <= n,
        staged(totals, transactions, k).full,
    ensures
        staged(totals, transactions, n) == staged(totals, transactions, k),
    decreases n - k,
{
    if k < n {
        lemma_full_transactions(totals, transactions, k, n - 1);
        let before = staged(totals, transactions, n - 1);
        lemma_full_tables(before, transactions[n - 1]@, 0, transactions[n - 1]@.len() as int);
    }
}

fn stage_tables(totals: StagingTotals, stores: &Vec<Option<u64>>) -> (r: StagingTotals)
    ensures
        r == staged_tables(totals, stores@, stores@.len() as int),
{
    let mut r: StagingTotals = totals;
    let mut k: usize = 0;
    while k < stores.len() && !r.full
        invariant
            0 <= k <= stores@.len(),
            r == staged_tables(totals, stores@, k as int),
        decreases stores@.len() - k,
    {
        if r.tables >= RUNTIME_STATS_MAX_STAGING_TABLES as u64 {
            r.full = true;
        } else {
            r.tables = r.tables + 1;
            match stores[k] {
                Some(count) => {
                    r.rows = r.rows.saturating_add(count);
                },
                None => {
                    r.busy = true;
                },
            }
        }
        k = k + 1;
    }
    proof {
        if r.full {
            lemma_full_tables(totals, stores@, k as int, stores@.len() as int);
        }
    }
    r
}

pub open spec fn nothing_staged(transactions: u64) -> StagingTotals {
    StagingTotals { transactions, tables: 0, rows: 0, busy: false, full: false }
}

pub open spec fn visited_transactions(count: nat) -> int {
    spec_min(count as int, RUNTIME_STATS_MAX_TRANSACTIONS as int)
}

/// Totals of what open transactions have staged.
pub fn staging_totals(transactions: &Option<Vec<Vec<Option<u64>>>>) -> (r: StagingTotals)
    ensures
        r == match transactions {
            None => nothing_staged(0),
            Some(t) => staged(
                nothing_staged(t@.len() as u64),
                t@,
                visited_transactions(t@.len()),
            ),
        },
{
    let transactions: &Vec<Vec<Option<u64>>> = match transactions {
        None => {
            return StagingTotals { transactions: 0, tables: 0, rows: 0, busy: false, full: false };
        },
        Some(t) => t,
    };
    let n: usize = if transactions.len() < RUNTIME_STATS_MAX_TRANSACTIONS {
        transactions.len()
    } else {
        RUNTIME_STATS_MAX_TRANSACTIONS
    };
    let start = StagingTotals {
        transactions: transactions.len() as u64,
        tables: 0,
        rows: 0,
        busy: false,
        full: false,
    };
    let mut r: StagingTotals = start;
    let mut i: usize = 0;
    while i < n && !r.full
        invariant
            0 <= i <= n <= transactions@.len(),
            r == staged(start, transactions@, i as int),
        decreases n - i,
    {
        r = stage_tables(r, &transactions[i]);
        i = i + 1;
    }
    proof {
        if r.full {
            lemma_full_transactions(start, transactions@, i as int, n as int);
        }
    }
    r
}

pub open spec fn no_sizes() -> ColdSizes {
    ColdSizes {
        segments: 0,
        unleveled_segments: 0,
        l0_segments: 0,
        l1_segments: 0,
        l0_debt_physical_bytes: 0,
        rows: 0,
        resident_bytes: 0,
        metadata_bytes: 0,
        row_id_bytes: 0,
        exact_index_bytes: 0,
        ordered_index_bytes: 0,
        descriptor_bytes: 0,
        column_payload_bytes: 0,
        tombstones: 0,
    }
}

pub open spec fn sum64(a: u64, b: u64) -> u64 {
    sat64(a + b) as u64
}

/// Sum of two sizes, field by field.
pub open spec fn sizes_sum(a: ColdSizes, b: ColdSizes) -> ColdSizes {
    ColdSizes {
        segments: sum64(a.segments, b.segments),
        unleveled_segments: sum64(a.unleveled_segments, b.unleveled_segments),
        l0_segments: sum64(a.l0_segments, b.l0_segments),
        l1_segments: sum64(a.l1_segments, b.l1_segments),
        l0_debt_physical_bytes: sum64(a.l0_debt_physical_bytes, b.l0_debt_physical_bytes),
        rows: sum64(a.rows, b.rows),
        resident_bytes: sum64(a.resident_bytes, b.resident_bytes),
        metadata_bytes: sum64(a.metadata_bytes, b.metadata_bytes),
        row_id_bytes: sum64(a.row_id_bytes, b.row_id_bytes),
        exact_index_bytes: sum64(a.exact_index_bytes, b.exact_index_bytes),
        ordered_index_bytes: sum64(a.ordered_index_bytes, b.ordered_index_bytes),
        descriptor_bytes: sum64(a.descriptor_bytes, b.descriptor_bytes),
        column_payload_bytes: sum64(a.column_payload_bytes, b.column_payload_bytes),
        tombstones: sum64(a.tombstones, b.tombstones),
    }
}

impl ColdSizes {
    pub fn zero() -> (r: Self)
        ensures
            r == no_sizes(),
    {
        ColdSizes {
            segments: 0,
            unleveled_segments: 0,
            l0_segments: 0,
            l1_segments: 0,
            l0_debt_physical_bytes: 0,
            rows: 0,
            resident_bytes: 0,
            metadata_bytes: 0,
            row_id_bytes: 0,
            exact_index_bytes: 0,
            ordered_index_bytes: 0,
            descriptor_bytes: 0,
            column_payload_bytes: 0,
            tombstones: 0,
        }
    }

    pub fn plus(self, other: ColdSizes) -> (r: Self)
        ensures
            r == sizes_sum(self, other),
    {
        ColdSizes {
            segments: self.segments.saturating_add(other.segments),
            unleveled_segments: self.unleveled_segments.saturating_add(other.unleveled_segments),
            l0_segments: self.l0_segments.saturating_add(other.l0_segments),
            l1_segments: self.l1_segments.saturating_add(other.l1_segments),
            l0_debt_physical_bytes: self.l0_debt_physical_bytes.saturating_add(
                other.l0_debt_physical_bytes,
            ),
            rows: self.rows.saturating_add(other.rows),
            resident_bytes: self.resident_bytes.saturating_add(other.resident_bytes),
            metadata_bytes: self.metadata_bytes.saturating_add(other.metadata_bytes),
            row_id_bytes: self.row_id_bytes.saturating_add(other.row_id_bytes),
            exact_index_bytes: self.exact_index_bytes.saturating_add(other.exact_index_bytes),
            ordered_index_bytes: self.ordered_index_bytes.saturating_add(
                other.ordered_index_bytes,
            ),
            descriptor_bytes: self.descriptor_bytes.saturating_add(other.descriptor_bytes),
            column_payload_bytes: self.column_payload_bytes.saturating_add(
                other.column_payload_bytes,
            ),
            tombstones: self.tombstones.saturating_add(other.tombstones),
        }
    }
}

/// A sampler may be asked about any table.
pub open spec fn can_sample<F: Fn(usize, usize) -> ColdOwner>(sample: F) -> bool {
    forall|i: usize, n: usize| #[trigger] call_requires(sample, (i, n))
}

pub open spec fn no_cold(tables: u64) -> ColdTotals {
    ColdTotals { tables, sizes: no_sizes(), busy: false, full: false }
}

/// Segments that may still be visited after some owners.
pub open spec fn segments_left(owners: Seq<ColdOwner>) -> int
    decreases owners.len(),
{
    if owners.len() == 0 {
        RUNTIME_STATS_MAX_SEGMENTS as int
    } else {
        monus(segments_left(owners.drop_last()), owners.last().sizes.segments as int)
    }
}

/// The visit ends behind its last owner.
pub open spec fn ends_visit(owners: Seq<ColdOwner>) -> bool {
    owners.len() > 0 && (owners.last().truncated || segments_left(owners) == 0)
}

/// Totals of the owners that were visited.
pub open spec fn cold_sum(tables: u64, owners: Seq<ColdOwner>) -> ColdTotals
    decreases owners.len(),
{
    if owners.len() == 0 {
        no_cold(tables)
    } else {
        let before = cold_sum(tables, owners.drop_last());
        let owner = owners.last();
        ColdTotals {
            sizes: sizes_sum(before.sizes, owner.sizes),
            busy: before.busy || owner.level_metadata_busy,
            full: ends_visit(owners),
            ..before
        }
    }
}

/// What the sampler said of the first tables, each asked with the segments
/// that were left; none of them but the last ended the visit.
pub open spec fn are_answers<F: Fn(usize, usize) -> ColdOwner>(
    sample: F,
    owners: Seq<ColdOwner>,
) -> bool
    decreases owners.len(),
{
    owners.len() == 0 || {
        let before = owners.drop_last();
        &&& are_answers(sample, before)
        &&& !ends_visit(before)
        &&& call_ensures(
            sample,
            (before.len() as usize, segments_left(before) as usize),
            owners.last(),
        )
    }
}

/// A visit goes on to table `n` unless one of the tables ended it.
pub open spec fn is_cold_visit<F: Fn(usize, usize) -> ColdOwner>(
    sample: F,
    owners: Seq<ColdOwner>,
    n: int,
) -> bool {
    &&& owners.len() <= n
    &&& owners.len() < n ==> ends_visit(owners)
    &&& are_answers(sample, owners)
}

/// Totals of one visit.
pub open spec fn is_visit_total<F: Fn(usize, usize) -> ColdOwner>(
    sample: F,
    tables: usize,
    owners: Seq<ColdOwner>,
    totals: ColdTotals,
) -> bool {
    &&& is_cold_visit(sample, owners, visited_tables(tables as nat))
    &&& totals == cold_sum(tables as u64, owners)
}

/// Totals that a visit of some of the tables comes to.
pub open spec fn is_cold_total<F: Fn(usize, usize) -> ColdOwner>(
    sample: F,
    tables: Option<usize>,
    totals: ColdTotals,
) -> bool {
    match tables {
        None => totals == no_cold(0),
        Some(n) => exists|owners: Seq<ColdOwner>| #[trigger]
            is_visit_total(sample, n, owners, totals),
    }
}

/// Totals of the cold storage; `tables` is absent where the owners were busy.
pub fn cold_totals<F: Fn(usize, usize) -> ColdOwner>(tables: Option<usize>, sample: F) -> (
    r: ColdTotals)
    requires
        can_sample(sample),
    ensures
        is_cold_total(sample, tables, r),
{
    let count: usize = match tables {
        None => {
            return ColdTotals { tables: 0, sizes: ColdSizes::zero(), busy: false, full: false };
        },
        Some(n) => n,
    };
    let n: usize = if count < RUNTIME_STATS_MAX_TABLES {
        count
    } else {
        RUNTIME_STATS_MAX_TABLES
    };
    let mut totals = ColdTotals {
        tables: count as u64,
        sizes: ColdSizes::zero(),
        busy: false,
        full: false,
    };
    let ghost mut owners: Seq<ColdOwner> = Seq::empty();
    let mut remaining: usize = RUNTIME_STATS_MAX_SEGMENTS;
    let mut i: usize = 0;
    while i < n && !totals.full
        invariant
            0 <= i <= n,
            n == visited_tables(count as nat),
            can_sample(sample),
            owners.len() == i,
            remaining == segments_left(owners),
            totals == cold_sum(count as u64, owners),
            totals.full == ends_visit(owners),
            are_answers(sample, owners),
        decreases n - i,
    {
        let owner: ColdOwner = sample(i, remaining);
        let ghost before = owners;
        proof {
            owners = before.push(owner);
            assert(owners.drop_last() =~= before);
            assert(owners.last() == owner);
        }
        totals.sizes = totals.sizes.plus(owner.sizes);
        totals.busy = totals.busy || owner.level_metadata_busy;
        remaining = if owner.sizes.segments >= remaining as u64 {
            0
        } else {
            remaining - owner.sizes.segments as usize
        };
        totals.full = owner.truncated || remaining == 0;
        i = i + 1;
    }
    assert(is_visit_total(sample, count, owners, totals));
    totals
}

pub open spec fn no_config() -> ConfigReport {
    ConfigReport {
        read_queue_depth: 0,
        max_compaction_jobs: 0,
        max_compaction_input_segments: 0,
        max_compaction_input_bytes: 0,
        max_compaction_output_bytes: 0,
        compaction_job_time_budget_ms: 0,
        compaction_io_bytes_per_sec: 0,
        compaction_disk_reserve_bytes: 0,
        compaction_retry_cooldown_ms: 0,
        l0_soft_limit_segments: 0,
        l0_hard_limit_segments: 0,
        l0_soft_limit_bytes: 0,
        l0_hard_limit_bytes: 0,
    }
}

/// The configuration with the limits as they take effect.
pub open spec fn config_shown(config: ConfigSample) -> ConfigReport {
    let limits = effective_l0_limits(
        config.l0_soft_limit_segments,
        config.l0_hard_limit_segments,
        config.l0_soft_limit_bytes,
        config.l0_hard_limit_bytes,
        0,
    );
    ConfigReport {
        read_queue_depth: config.read_queue_depth,
        max_compaction_jobs: config.max_compaction_jobs,
        max_compaction_input_segments: config.max_compaction_input_segments,
        max_compaction_input_bytes: config.max_compaction_input_bytes,
        max_compaction_output_bytes: config.max_compaction_output_bytes,
        compaction_job_time_budget_ms: config.compaction_job_time_budget_ms,
        compaction_io_bytes_per_sec: config.compaction_io_bytes_per_sec,
        compaction_disk_reserve_bytes: config.compaction_disk_reserve_bytes,
        compaction_retry_cooldown_ms: config.compaction_retry_cooldown_ms,
        l0_soft_limit_segments: limits.soft_segments,
        l0_hard_limit_segments: limits.hard_segments,
        l0_soft_limit_bytes: limits.soft_bytes,
        l0_hard_limit_bytes: limits.hard_bytes,
    }
}

/// The configuration as an observer sees it.
pub fn config_report(config: Option<ConfigSample>) -> (r: ConfigReport)
    ensures
        r == match config {
            None => no_config(),
            Some(c) => config_shown(c),
        },
{
    match config {
        None => ConfigReport {
            read_queue_depth: 0,
            max_compaction_jobs: 0,
            max_compaction_input_segments: 0,
            max_compaction_input_bytes: 0,
            max_compaction_output_bytes: 0,
            compaction_job_time_budget_ms: 0,
            compaction_io_bytes_per_sec: 0,
            compaction_disk_reserve_bytes: 0,
            compaction_retry_cooldown_ms: 0,
            l0_soft_limit_segments: 0,
            l0_hard_limit_segments: 0,
            l0_soft_limit_bytes: 0,
            l0_hard_limit_bytes: 0,
        },
        Some(config) => {
            let limits: L0PressureLimits = l0_pressure_limits(
                config.l0_soft_limit_segments,
                config.l0_hard_limit_segments,
                config.l0_soft_limit_bytes,
                config.l0_hard_limit_bytes,
                0,
            );
            ConfigReport {
                read_queue_depth: config.read_queue_depth,
                max_compaction_jobs: config.max_compaction_jobs,
                max_compaction_input_segments: config.max_compaction_input_segments,
                max_compaction_input_bytes: config.max_compaction_input_bytes,
                max_compaction_output_bytes: config.max_compaction_output_bytes,
                compaction_job_time_budget_ms: config.compaction_job_time_budget_ms,
                compaction_io_bytes_per_sec: config.compaction_io_bytes_per_sec,
                compaction_disk_reserve_bytes: config.compaction_disk_reserve_bytes,
                compaction_retry_cooldown_ms: config.compaction_retry_cooldown_ms,
                l0_soft_limit_segments: limits.soft_segments,
                l0_hard_limit_segments: limits.hard_segments,
                l0_soft_limit_bytes: limits.soft_bytes,
                l0_hard_limit_bytes: limits.hard_bytes,
            }
        },
    }
}

/// The log as it is shown; a database without one shows zeros.
pub open spec fn wal_shown(wal: Option<WalSample>) -> WalReport {
    match wal {
        None => WalReport {
            current_lsn: 0,
            current_file_bytes: 0,
            max_file_bytes: 0,
            running: false,
            pending_durability_bytes: 0,
            last_checkpoint_unix_nanos: 0,
        },
        Some(w) => WalReport {
            current_lsn: w.current_lsn,
            current_file_bytes: w.current_file_bytes,
            max_file_bytes: w.max_file_bytes,
            running: w.running,
            pending_durability_bytes: match w.pending_durability_bytes {
                Some(bytes) => bytes,
                None => 0,
            },
            last_checkpoint_unix_nanos: w.last_checkpoint_unix_nanos,
        },
    }
}

pub fn wal_report(wal: Option<WalSample>) -> (r: WalReport)
    ensures
        r == wal_shown(wal),
{
    match wal {
        None => WalReport {
            current_lsn: 0,
            current_file_bytes: 0,
            max_file_bytes: 0,
            running: false,
            pending_durability_bytes: 0,
            last_checkpoint_unix_nanos: 0,
        },
        Some(w) => WalReport {
            current_lsn: w.current_lsn,
            current_file_bytes: w.current_file_bytes,
            max_file_bytes: w.max_file_bytes,
            running: w.running,
            pending_durability_bytes: match w.pending_durability_bytes {
                Some(bytes) => bytes,
                None => 0,
            },
            last_checkpoint_unix_nanos: w.last_checkpoint_unix_nanos,
        },
    }
}

/// Names with one more where a condition holds.
pub open spec fn noted(names: Set<Seq<char>>, name: Seq<char>, when: bool) -> Set<Seq<char>> {
    if when {
        names.insert(name)
    } else {
        names
    }
}

fn note(names: &mut Vec<String>, name: &str, when: bool)
    ensures
        names_of(final(names)@) == noted(names_of(old(names)@), name@, when),
{
    if when {
        let name: String = String::from_str(name);
        proof {
            lemma_names_push(names@, name);
        }
        names.push(name);
    }
}

/// Age of the oldest transaction.
pub open spec fn age_millis(started_nanos: i64, now_millis: u64) -> int {
    monus(
        now_millis as int,
        if started_nanos > 0 {
            started_nanos as int / 1_000_000
        } else {
            0
        },
    )
}

/// Everything that was sampled.
#[derive(Debug)]
pub struct RuntimeSamples {
    pub captured_unix_millis: u64,
    /// Absent where the state was busy.
    pub lifecycle: Option<String>,
    pub transaction: TransactionSample,
    pub hot: Option<Vec<HotSample>>,
    pub staging: Option<Vec<Vec<Option<u64>>>>,
    pub cold_tables: Option<usize>,
    pub config: Option<ConfigSample>,
    pub cooldown: CooldownSnapshot,
    pub wal: Option<WalSample>,
    pub flags: RuntimeFlags,
    pub maintenance: EngineMaintenanceSnapshot,
}

pub open spec fn wal_busy(wal: Option<WalSample>) -> bool {
    wal matches Some(w) && w.pending_durability_bytes is None
}

/// What could not be sampled.
pub open spec fn missing_names(
    samples: RuntimeSamples,
    staging: StagingTotals,
    cold: ColdTotals,
) -> Set<Seq<char>> {
    let s = noted(Set::empty(), "lifecycle_busy"@, samples.lifecycle is None);
    let s = noted(s, "transaction_registry_busy"@, samples.transaction.registry_busy);
    let s = noted(s, "transaction_wait_graph_busy"@, samples.transaction.wait_edges is None);
    let s = noted(s, "hot_owner_map_busy"@, samples.hot is None);
    let s = noted(s, "staging_owner_map_busy"@, samples.staging is None);
    let s = noted(s, "staging_store_busy"@, staging.busy);
    let s = noted(s, "cold_owner_map_busy"@, samples.cold_tables is None);
    let s = noted(s, "cold_manifest_busy"@, cold.busy);
    let s = noted(s, "config_busy"@, samples.config is None);
    let s = noted(s, "page_cache_warmup_busy"@, samples.flags.page_cache_warmup_busy);
    noted(s, "wal_buffer_busy"@, wal_busy(samples.wal))
}

/// What was cut short.
pub open spec fn truncated_names(
    samples: RuntimeSamples,
    staging: StagingTotals,
    cold: ColdTotals,
) -> Set<Seq<char>> {
    let s = noted(Set::empty(), "transactions"@, samples.transaction.truncated);
    let s = noted(
        s,
        "hot_tables"@,
        samples.hot matches Some(h) && h@.len() > RUNTIME_STATS_MAX_TABLES,
    );
    let s = noted(
        s,
        "staging_transactions"@,
        samples.staging matches Some(t) && t@.len() > RUNTIME_STATS_MAX_TRANSACTIONS,
    );
    let s = noted(s, "staging_tables"@, staging.full);
    let s = noted(
        s,
        "cold_tables"@,
        samples.cold_tables matches Some(n) && n > RUNTIME_STATS_MAX_TABLES,
    );
    noted(s, "cold_segments"@, cold.full)
}

fn missing_list(samples: &RuntimeSamples, staging: StagingTotals, cold: ColdTotals) -> (r: Vec<
    String,
>)
    ensures
        strictly_ascending_names(r@),
        names_of(r@) == missing_names(*samples, staging, cold),
{
    let mut names: Vec<String> = Vec::new();
    assert(names_of(names@) =~= Set::<Seq<char>>::empty());
    note(&mut names, "lifecycle_busy", samples.lifecycle.is_none());
    note(&mut names, "transaction_registry_busy", samples.transaction.registry_busy);
    note(&mut names, "transaction_wait_graph_busy", samples.transaction.wait_edges.is_none());
    note(&mut names, "hot_owner_map_busy", samples.hot.is_none());
    note(&mut names, "staging_owner_map_busy", samples.staging.is_none());
    note(&mut names, "staging_store_busy", staging.busy);
    note(&mut names, "cold_owner_map_busy", samples.cold_tables.is_none());
    note(&mut names, "cold_manifest_busy", cold.busy);
    note(&mut names, "config_busy", samples.config.is_none());
    note(&mut names, "page_cache_warmup_busy", samples.flags.page_cache_warmup_busy);
    let busy: bool = match samples.wal {
        Some(w) => w.pending_durability_bytes.is_none(),
        None => false,
    };
    note(&mut names, "wal_buffer_busy", busy);
    sorted_unique_names(names)
}

fn truncated_list(samples: &RuntimeSamples, staging: StagingTotals, cold: ColdTotals) -> (r: Vec<
    String,
>)
    ensures
        strictly_ascending_names(r@),
        names_of(r@) == truncated_names(*samples, staging, cold),
{
    let mut names: Vec<String> = Vec::new();
    assert(names_of(names@) =~= Set::<Seq<char>>::empty());
    note(&mut names, "transactions", samples.transaction.truncated);
    let hot: bool = match &samples.hot {
        Some(h) => h.len() > RUNTIME_STATS_MAX_TABLES,
        None => false,
    };
    note(&mut names, "hot_tables", hot);
    let staged: bool = match &samples.staging {
        Some(t) => t.len() > RUNTIME_STATS_MAX_TRANSACTIONS,
        None => false,
    };
    note(&mut names, "staging_transactions", staged);
    note(&mut names, "staging_tables", staging.full);
    let tables: bool = match samples.cold_tables {
        Some(n) => n > RUNTIME_STATS_MAX_TABLES,
        None => false,
    };
    note(&mut names, "cold_tables", tables);
    note(&mut names, "cold_segments", cold.full);
    sorted_unique_names(names)
}

pub open spec fn visit_limits() -> EngineRuntimeVisitLimits {
    EngineRuntimeVisitLimits {
        max_tables: 4096,
        max_segments: 16384,
        max_transactions: 4096,
        max_staging_tables: 16384,
        max_active_segment_ids: 64,
    }
}

/// Number of the statistics that are given out after so many.
pub open spec fn next_number(taken: u64) -> int {
    sat64(taken + 1)
}

/// How many statistics an engine has given out.
#[derive(Debug)]
pub struct SnapshotCounter {
    taken: u64,
}

impl SnapshotCounter {
    pub closed spec fn count(self) -> u64 {
        self.taken
    }

    pub fn new() -> (r: Self)
        ensures
            r.count() == 0,
    {
        SnapshotCounter { taken: 0 }
    }

    /// Counts one more and gives its number.
    pub fn take(&mut self) -> (number: u64)
        ensures
            number == next_number(old(self).count()),
            final(self).count() == old(self).count().wrapping_add(1),
    {
        let number: u64 = self.taken.saturating_add(1);
        self.taken = self.taken.wrapping_add(1);
        number
    }
}

/// Puts the statistics together, under the next number.
pub fn runtime_stats_snapshot<F: Fn(usize, usize) -> ColdOwner>(
    counter: &mut SnapshotCounter,
    samples: RuntimeSamples,
    sample_cold: F,
) -> (r: EngineRuntimeStatsV2)
    requires
        can_sample(sample_cold),
    ensures
        r.format == 2,
        r.sequence == next_number(old(counter).count()),
        final(counter).count() == old(counter).count().wrapping_add(1),
        r.captured_unix_millis == samples.captured_unix_millis,
        strictly_ascending_names(r.missing_evidence@),
        names_of(r.missing_evidence@) == missing_names(samples, r.staging, r.cold),
        strictly_ascending_names(r.truncated_owners@),
        names_of(r.truncated_owners@) == truncated_names(samples, r.staging, r.cold),
        r.complete == (r.missing_evidence@.len() == 0 && r.truncated_owners@.len() == 0),
        r.lifecycle@ == match samples.lifecycle {
            Some(name) => name@,
            None => "unknown"@,
        },
        r.active_transactions == samples.transaction.active,
        r.accepting_transactions == samples.transaction.accepting,
        r.oldest_transaction_begin_sequence == samples.transaction.oldest_begin_sequence,
        r.transaction_wait_edges == samples.transaction.wait_edges,
        match samples.transaction.oldest_begin_timestamp_nanos {
            Some(started) => r.oldest_transaction_age_millis == Some(
                age_millis(started, samples.captured_unix_millis) as u64,
            ),
            None => r.oldest_transaction_age_millis is None,
        },
        match samples.hot {
            None => r.hot == (HotTotals { tables: 0, rows: 0, bytes: 0 }),
            Some(s) => r.hot.tables == s@.len() && r.hot.rows == hot_rows(
                s@,
                visited_tables(s@.len()),
            ) && r.hot.bytes == hot_bytes(s@, visited_tables(s@.len())),
        },
        r.staging == match samples.staging {
            None => nothing_staged(0),
            Some(t) => staged(
                nothing_staged(t@.len() as u64),
                t@,
                visited_transactions(t@.len()),
            ),
        },
        is_cold_total(sample_cold, samples.cold_tables, r.cold),
        r.config == match samples.config {
            None => no_config(),
            Some(c) => config_shown(c),
        },
        r.cooldown == samples.cooldown,
        r.wal == wal_shown(samples.wal),
        r.seal_running == samples.maintenance.seal.counters.active,
        r.checkpoint_running == samples.maintenance.checkpoint.counters.active,
        r.flags == samples.flags,
        r.maintenance == samples.maintenance,
        r.owner_visit_limits == visit_limits(),
{
    let hot: HotTotals = hot_totals(&samples.hot);
    let staging: StagingTotals = staging_totals(&samples.staging);
    let cold: ColdTotals = cold_totals(samples.cold_tables, sample_cold);
    let missing_evidence: Vec<String> = missing_list(&samples, staging, cold);
    let truncated_owners: Vec<String> = truncated_list(&samples, staging, cold);
    let complete: bool = missing_evidence.len() == 0 && truncated_owners.len() == 0;
    let transaction: TransactionSample = samples.transaction;
    let age: Option<u64> = match transaction.oldest_begin_timestamp_nanos {
        Some(started) => {
            let started_millis: u64 = if started > 0 {
                (started as u64) / 1_000_000
            } else {
                0
            };
            Some(samples.captured_unix_millis.saturating_sub(started_millis))
        },
        None => None,
    };
    let lifecycle: String = match samples.lifecycle {
        Some(name) => name,
        None => String::from_str("unknown"),
    };
    EngineRuntimeStatsV2 {
        format: 2,
        sequence: counter.take(),
        captured_unix_millis: samples.captured_unix_millis,
        complete,
        missing_evidence,
        truncated_owners,
        lifecycle,
        active_transactions: transaction.active,
        accepting_transactions: transaction.accepting,
        oldest_transaction_begin_sequence: transaction.oldest_begin_sequence,
        oldest_transaction_age_millis: age,
        transaction_wait_edges: transaction.wait_edges,
        hot,
        staging,
        cold,
        config: config_report(samples.config),
        cooldown: samples.cooldown,
        wal: wal_report(samples.wal),
        seal_running: samples.maintenance.seal.counters.active,
        checkpoint_running: samples.maintenance.checkpoint.counters.active,
        flags: samples.flags,
        maintenance: samples.maintenance,
        owner_visit_limits: EngineRuntimeVisitLimits {
            max_tables: RUNTIME_STATS_MAX_TABLES as u64,
            max_segments: RUNTIME_STATS_MAX_SEGMENTS as u64,
            max_transactions: RUNTIME_STATS_MAX_TRANSACTIONS as u64,
            max_staging_tables: RUNTIME_STATS_MAX_STAGING_TABLES as u64,
            max_active_segment_ids: RUNTIME_STATS_MAX_ACTIVE_SEGMENT_IDS as u64,
        },
    }
}

/// What the counter of an engine says after so many statistics.
pub open spec fn counted(n: nat) -> u64
    decreases n,
{
    if n == 0 {
        0
    } else {
        counted((n - 1) as nat).wrapping_add(1)
    }
}

/// The n-th statistics of an engine have number n, so that later ones have
/// higher numbers.
pub proof fn law_statistics_are_numbered(n: nat)
    requires
        0 < n <= u64::MAX,
    ensures
        counted(n) == n,
        next_number(counted((n - 1) as nat)) == n,
    decreases n,
{
    if n > 1 {
        law_statistics_are_numbered((n - 1) as nat);
    } else {
        reveal_with_fuel(counted, 2);
    }
}

/// A visit that stops early shows a lower bound of what all tables hold.
pub proof fn law_hot_totals_are_lower_bounds(samples: Seq<HotSample>, n: int)
    requires
        0 <= n <= samples.len(),
    ensures
        hot_rows(samples, n) <= hot_rows(samples, samples.len() as int),
        hot_bytes(samples, n) <= hot_bytes(samples, samples.len() as int),
{
    lemma_hot_monotone(samples, n, samples.len() as int);
}

proof fn lemma_hot_monotone(samples: Seq<HotSample>, n: int, m: int)
    requires
        0 <= n <= m <= samples.len(),
    ensures
        0 <= hot_rows(samples, n) <= hot_rows(samples, m) <= u64::MAX,
        0 <= hot_bytes(samples, n) <= hot_bytes(samples, m) <= u64::MAX,
    decreases m,
{
    if n < m {
        lemma_hot_monotone(samples, n, m - 1);
    } else if n > 0 {
        lemma_hot_monotone(samples, n - 1, m - 1);
    }
}

/// One size is nowhere larger than another.
pub open spec fn sizes_at_most(a: ColdSizes, b: ColdSizes) -> bool {
    &&& a.segments <= b.segments
    &&& a.unleveled_segments <= b.unleveled_segments
    &&& a.l0_segments <= b.l0_segments
    &&& a.l1_segments <= b.l1_segments
    &&& a.l0_debt_physical_bytes <= b.l0_debt_physical_bytes
    &&& a.rows <= b.rows
    &&& a.resident_bytes <= b.resident_bytes
    &&& a.metadata_bytes <= b.metadata_bytes
    &&& a.row_id_bytes <= b.row_id_bytes
    &&& a.exact_index_bytes <= b.exact_index_bytes
    &&& a.ordered_index_bytes <= b.ordered_index_bytes
    &&& a.descriptor_bytes <= b.descriptor_bytes
    &&& a.column_payload_bytes <= b.column_payload_bytes
    &&& a.tombstones <= b.tombstones
}

/// A visit of cold storage that stops early shows a lower bound, too.
pub proof fn law_cold_totals_are_lower_bounds(tables: u64, owners: Seq<ColdOwner>, n: int)
    requires
        0 <= n <= owners.len(),
    ensures
        sizes_at_most(cold_sum(tables, owners.take(n)).sizes, cold_sum(tables, owners).sizes),
    decreases owners.len(),
{
    if n < owners.len() {
        law_cold_totals_are_lower_bounds(tables, owners.drop_last(), n);
        assert(owners.drop_last().take(n) =~= owners.take(n));
    } else {
        assert(owners.take(n) =~= owners);
    }
}

/// A snapshot never counts more staged tables than it may visit.
pub proof fn law_staging_visit_is_bounded(
    transactions: u64,
    stores: Seq<Vec<Option<u64>>>,
    n: int,
)
    requires
        0 <= n <= stores.len(),
    ensures
        staged(nothing_staged(transactions), stores, n).tables
            <= RUNTIME_STATS_MAX_STAGING_TABLES,
    decreases n,
{
    if n > 0 {
        law_staging_visit_is_bounded(transactions, stores, n - 1);
        let before = staged(nothing_staged(transactions), stores, n - 1);
        lemma_staged_bounded(before, stores[n - 1]@, stores[n - 1]@.len() as int);
    }
}

proof fn lemma_staged_bounded(totals: StagingTotals, stores: Seq<Option<u64>>, n: int)
    requires
        totals.tables <= RUNTIME_STATS_MAX_STAGING_TABLES,
        0 <= n <= stores.len(),
    ensures
        staged_tables(totals, stores, n).tables <= RUNTIME_STATS_MAX_STAGING_TABLES,
    decreases n,
{
    if n > 0 {
        lemma_staged_bounded(totals, stores, n - 1);
    }
}

} // verus!
