//! One compaction wave and the jobs in it.
use crate::compaction::abort::abort_message;
use crate::compaction::abort::compaction_abort;
use crate::compaction::abort::compaction_abort_reason;
use crate::compaction::abort::compaction_publication_is_stale;
use crate::compaction::abort::is_abort_reason;
use crate::compaction::abort::is_stale;
use crate::compaction::abort::names_an_abort;
use crate::compaction::abort::stale_reason;
use crate::compaction::plan::candidates_of;
use crate::compaction::plan::compaction_io_rate_per_job;
use crate::compaction::plan::effective_compaction_input_budget;
use crate::compaction::plan::find_loaded;
use crate::compaction::plan::frozen_volume_physical_bytes;
use crate::compaction::plan::input_budget;
use crate::compaction::plan::io_rate_per_job;
use crate::compaction::plan::is_selected_run;
use crate::compaction::plan::loaded_index;
use crate::compaction::plan::needs_compaction;
use crate::compaction::plan::oversized_rows;
use crate::compaction::plan::oversized_threshold;
use crate::compaction::plan::physical_bytes;
use crate::compaction::plan::plan_candidates;
use crate::compaction::plan::run_indices;
use crate::compaction::plan::run_is_useful;
use crate::compaction::plan::select_bounded_compaction_run;
use crate::compaction::plan::size_tier_target_rows;
use crate::compaction::plan::table_needs_compaction;
use crate::compaction::plan::CompactionCandidate;
use crate::compaction::plan::SegmentRecord;
use crate::compaction::plan::SegmentVolume;
use crate::compaction::plan::TableCompactionView;
use crate::compaction::schedule::in_compaction_order;
use crate::compaction::schedule::limit_compaction_wave;
use crate::compaction::schedule::prioritize_compaction_tables;
use crate::error::Error;
use crate::error::ErrorView;
use crate::fx::no_tombstones;
use crate::identity::compaction_job_signature;
use crate::identity::job_signature;
use crate::num::max_size;
use crate::num::min_size;
use crate::num::monus;
use crate::num::sat64;
use crate::num::sat_size;
use crate::num::spec_max;
use crate::num::spec_min;
use crate::pressure::L0DebtSnapshot;
use crate::pressure::L0PressureLimits;
use crate::pressure::TableDebt;
use crate::sort::is_permutation;
use crate::text::decimal;
use crate::text::decimal_digits;
use rustc_hash::FxHashMap;
use vstd::prelude::*;
use vstd::string::StringExecFns;
use vstd::string::StringSliceAdditionalSpecFns;

verus! {

/// Configured bounds of a wave.
#[derive(Debug, Clone, Copy, PartialEq, Eq, Structural)]
pub struct CompactionConfig {
    pub compact_threshold: usize,
    pub target_volume_rows: usize,
    pub max_jobs: usize,
    /// Jobs that the engine allows whatever is configured.
    pub job_cap: usize,
    pub max_input_bytes: u64,
    pub max_output_bytes: u64,
    pub job_time_budget_ms: u64,
    pub io_bytes_per_sec: u64,
}

/// Segments that make a merge worthwhile where the configuration cannot be read.
pub const FALLBACK_COMPACT_THRESHOLD: usize = 4;

/// Rows of a volume where the configuration cannot be read.
pub const FALLBACK_TARGET_VOLUME_ROWS: usize = 1_048_576;

impl CompactionConfig {
    /// The bounds that were read. Where they cannot be read, the shape of the
    /// volumes has its own fallback, and the bounds of a job are the defaults.
    pub fn read_or_fallback(read: Option<CompactionConfig>, defaults: CompactionConfig) -> (r: Self)
        ensures
            r == (match read {
                Some(config) => config,
                None => (CompactionConfig {
                    compact_threshold: FALLBACK_COMPACT_THRESHOLD,
                    target_volume_rows: FALLBACK_TARGET_VOLUME_ROWS,
                    ..defaults
                }),
            }),
    {
        match read {
            Some(config) => config,
            None => CompactionConfig {
                compact_threshold: FALLBACK_COMPACT_THRESHOLD,
                target_volume_rows: FALLBACK_TARGET_VOLUME_ROWS,
                ..defaults
            },
        }
    }
}

/// Whether merged volumes are compressed: also where the configuration cannot
/// be read.
pub fn compresses_volumes(read: Option<bool>) -> (r: bool)
    ensures
        r == (read != Some(false)),
{
    match read {
        Some(compress) => compress,
        None => true,
    }
}

/// How many tables a background wave takes at most: one per job, and at least
/// one.
pub fn background_wave_width(max_jobs: Option<usize>, default_jobs: usize, job_cap: usize) -> (r:
    usize)
    requires
        job_cap >= 1,
    ensures
        r == spec_min(
            spec_max(
                match max_jobs {
                    Some(jobs) => jobs as int,
                    None => default_jobs as int,
                },
                1,
            ),
            job_cap as int,
        ),
{
    let jobs: usize = match max_jobs {
        Some(jobs) => jobs,
        None => default_jobs,
    };
    min_size(max_size(jobs, 1), job_cap)
}

/// One table as a wave sees it.
#[derive(Debug)]
pub struct WaveTable {
    pub name: String,
    pub view: TableCompactionView,
    pub debt: L0DebtSnapshot,
}

/// What a wave will do.
#[derive(Debug)]
pub struct CompactionWave {
    pub tables: Vec<String>,
    /// Tables were left for a later wave.
    pub more_candidates: bool,
    pub job_slots: usize,
    pub io_bytes_per_job: u64,
    pub max_input_bytes: u64,
    pub tier_target_rows: usize,
}

/// Tables with work among the first `n`.
pub open spec fn eligible(
    tables: Seq<WaveTable>,
    n: int,
    compact_threshold: usize,
    tier_target_rows: usize,
) -> Seq<TableDebt>
    decreases n,
{
    if n <= 0 {
        Seq::empty()
    } else {
        let earlier = eligible(tables, n - 1, compact_threshold, tier_target_rows);
        if needs_compaction(tables[n - 1].view, compact_threshold, tier_target_rows) {
            earlier.push(TableDebt { table: tables[n - 1].name, debt: tables[n - 1].debt })
        } else {
            earlier
        }
    }
}

pub open spec fn wave_threshold(config: CompactionConfig) -> usize {
    spec_max(config.compact_threshold as int, 2) as usize
}

pub open spec fn wave_tier(config: CompactionConfig) -> usize {
    sat_size(config.target_volume_rows * wave_threshold(config)) as usize
}

/// The tables of a wave are the most urgent of the eligible ones, in order.
pub open spec fn is_wave_over(
    wave: CompactionWave,
    ranked: Seq<TableDebt>,
    config: CompactionConfig,
    max_tables: Option<usize>,
) -> bool {
    let width = match max_tables {
        None => ranked.len() as int,
        Some(limit) => spec_min(ranked.len() as int, spec_max(limit as int, 1)),
    };
    let slots = spec_min(
        spec_min(spec_max(config.max_jobs as int, 1), config.job_cap as int),
        width,
    );
    let io = io_rate_per_job(config.io_bytes_per_sec, slots as usize);
    &&& wave.tables@.len() == width
    &&& forall|i: int| 0 <= i < width ==> #[trigger] wave.tables@[i] == ranked[i].table
    &&& wave.more_candidates == (width < ranked.len())
    &&& wave.job_slots == slots
    &&& wave.io_bytes_per_job == io
    &&& wave.max_input_bytes == input_budget(
        config.max_input_bytes,
        config.max_output_bytes,
        config.job_time_budget_ms,
        io as u64,
    )
    &&& wave.tier_target_rows == wave_tier(config)
}

/// Plans one wave, or nothing where there is nothing to do: an active
/// snapshot or disabled persistence stops all compaction, and otherwise a
/// wave needs at least one table with work.
///
/// The configured I/O rate is one budget for the process; concurrent jobs
/// divide it.
pub fn plan_compaction_wave(
    tables: &Vec<WaveTable>,
    config: CompactionConfig,
    limits: L0PressureLimits,
    max_tables: Option<usize>,
    snapshot_active: bool,
    persistence_enabled: bool,
) -> (r: Option<CompactionWave>)
    requires
        config.job_cap >= 1,
    ensures
        ({
            let work = eligible(
                tables@,
                tables@.len() as int,
                wave_threshold(config),
                wave_tier(config),
            );
            match r {
                None => snapshot_active || !persistence_enabled || work.len() == 0,
                Some(wave) => {
                    &&& !snapshot_active
                    &&& persistence_enabled
                    &&& work.len() > 0
                    &&& exists|ranked: Seq<TableDebt>| #[trigger]
                        is_permutation(ranked, work) && in_compaction_order(ranked, limits)
                            && is_wave_over(wave, ranked, config, max_tables)
                },
            }
        }),
{
    if snapshot_active || !persistence_enabled {
        return None;
    }
    let compact_threshold: usize = max_size(config.compact_threshold, 2);
    let tier_target_rows: usize = size_tier_target_rows(
        config.target_volume_rows,
        compact_threshold,
    );
    let mut candidates: Vec<TableDebt> = Vec::new();
    let mut i: usize = 0;
    while i < tables.len()
        invariant
            0 <= i <= tables@.len(),
            compact_threshold >= 2,
            candidates@ == eligible(tables@, i as int, compact_threshold, tier_target_rows),
        decreases tables@.len() - i,
    {
        if table_needs_compaction(&tables[i].view, compact_threshold, tier_target_rows) {
            candidates.push(TableDebt { table: tables[i].name.clone(), debt: tables[i].debt });
        }
        i = i + 1;
    }
    let ghost work = candidates@;
    prioritize_compaction_tables(&mut candidates, limits);
    let ghost ranked = candidates@;
    proof {
        crate::sort::lemma_permutation(ranked, work);
    }
    if candidates.len() == 0 {
        return None;
    }
    let more_candidates: bool = limit_compaction_wave(&mut candidates, max_tables);
    let mut names: Vec<String> = Vec::new();
    let mut k: usize = 0;
    while k < candidates.len()
        invariant
            0 <= k <= candidates@.len(),
            names@.len() == k,
            forall|j: int| 0 <= j < k ==> #[trigger] names@[j] == candidates@[j].table,
        decreases candidates@.len() - k,
    {
        names.push(candidates[k].table.clone());
        k = k + 1;
    }
    let job_slots: usize = min_size(
        min_size(max_size(config.max_jobs, 1), config.job_cap),
        names.len(),
    );
    let io_bytes_per_job: u64 = compaction_io_rate_per_job(config.io_bytes_per_sec, job_slots);
    let max_input_bytes: u64 = effective_compaction_input_budget(
        config.max_input_bytes,
        config.max_output_bytes,
        config.job_time_budget_ms,
        io_bytes_per_job,
    );
    let wave = CompactionWave {
        tables: names,
        more_candidates,
        job_slots,
        io_bytes_per_job,
        max_input_bytes,
        tier_target_rows,
    };
    assert(is_wave_over(wave, ranked, config, max_tables));
    Some(wave)
}

/// Why a job runs.
#[derive(Debug, Clone, Copy, PartialEq, Eq, Structural)]
pub enum CompactionReason {
    OversizedSegmentSplit,
    TombstoneCleanup,
    SubTargetMerge,
}

impl CompactionReason {
    pub open spec fn text(self) -> Seq<char> {
        match self {
            CompactionReason::OversizedSegmentSplit => "oversized_segment_split"@,
            CompactionReason::TombstoneCleanup => "tombstone_cleanup"@,
            CompactionReason::SubTargetMerge => "sub_target_merge"@,
        }
    }

    pub fn as_str(self) -> (r: &'static str)
        ensures
            r@ == self.text(),
    {
        match self {
            CompactionReason::OversizedSegmentSplit => "oversized_segment_split",
            CompactionReason::TombstoneCleanup => "tombstone_cleanup",
            CompactionReason::SubTargetMerge => "sub_target_merge",
        }
    }
}

/// The segments one job replaces.
#[derive(Debug)]
pub struct TableCompactionPlan {
    /// Positions in the manifest, oldest first.
    pub merge_indices: Vec<usize>,
    pub old_ids: Vec<u64>,
    /// Positions among the loaded segments, newest first.
    pub inputs: Vec<usize>,
    pub reason: CompactionReason,
    pub input_rows: u64,
    pub input_bytes: u64,
    pub signature: u64,
}

/// Rows of the first `n` inputs.
pub open spec fn rows_of(loaded: Seq<SegmentVolume>, inputs: Seq<usize>, n: int) -> int
    decreases n,
{
    if n <= 0 {
        0
    } else {
        sat64(rows_of(loaded, inputs, n - 1) + loaded[inputs[n - 1] as int].row_ids@.len())
    }
}

/// Bytes of the first `n` inputs.
pub open spec fn bytes_of(loaded: Seq<SegmentVolume>, inputs: Seq<usize>, n: int) -> int
    decreases n,
{
    if n <= 0 {
        0
    } else {
        sat64(bytes_of(loaded, inputs, n - 1) + physical_bytes(loaded[inputs[n - 1] as int]))
    }
}

pub open spec fn any_input_oversized(
    loaded: Seq<SegmentVolume>,
    inputs: Seq<usize>,
    target_volume_rows: usize,
) -> bool {
    exists|k: int|
        0 <= k < inputs.len() && loaded[#[trigger] inputs[k] as int].row_ids@.len()
            > oversized_rows(target_volume_rows)
}

pub open spec fn plan_is_consistent(
    plan: TableCompactionPlan,
    table_name: Seq<u8>,
    segments: Seq<SegmentRecord>,
    loaded: Seq<SegmentVolume>,
    tombstones: Map<i64, u64>,
    target_volume_rows: usize,
    schema_epoch: u64,
) -> bool {
    let n = plan.merge_indices@.len();
    &&& plan.old_ids@.len() == n
    &&& plan.inputs@.len() == n
    &&& forall|k: int|
        0 <= k < n ==> (#[trigger] plan.merge_indices@[k]) < segments.len() && plan.old_ids@[k]
            == segments[plan.merge_indices@[k] as int].segment_id
    &&& forall|k: int|
        0 <= k < n ==> (#[trigger] plan.inputs@[k]) < loaded.len() && loaded_index(
            loaded,
            plan.old_ids@[n - 1 - k],
        ) == Some(plan.inputs@[k] as int)
    &&& plan.reason == if any_input_oversized(loaded, plan.inputs@, target_volume_rows) {
        CompactionReason::OversizedSegmentSplit
    } else if tombstones.dom() != Set::<i64>::empty() {
        CompactionReason::TombstoneCleanup
    } else {
        CompactionReason::SubTargetMerge
    }
    &&& plan.input_rows == rows_of(loaded, plan.inputs@, n as int)
    &&& plan.input_bytes == bytes_of(loaded, plan.inputs@, n as int)
    &&& plan.signature == job_signature(table_name, schema_epoch, plan.old_ids@)
}

/// Every candidate is a manifest entry whose segment is loaded.
proof fn lemma_candidates_are_loaded(
    segments: Seq<SegmentRecord>,
    n: int,
    loaded: Seq<SegmentVolume>,
    tombstones: Map<i64, u64>,
    boundary: Option<u64>,
    tier_target_rows: usize,
    k: int,
)
    requires
        0 <= n <= segments.len() <= usize::MAX,
        0 <= k < candidates_of(segments, n, loaded, tombstones, boundary, tier_target_rows).len(),
    ensures
        ({
            let c = candidates_of(segments, n, loaded, tombstones, boundary, tier_target_rows)[k];
            &&& c.manifest_index < n
            &&& loaded_index(loaded, segments[c.manifest_index as int].segment_id) is Some
        }),
    decreases n,
{
    if n > 0 {
        let earlier = candidates_of(
            segments,
            n - 1,
            loaded,
            tombstones,
            boundary,
            tier_target_rows,
        );
        if k < earlier.len() {
            lemma_candidates_are_loaded(
                segments,
                n - 1,
                loaded,
                tombstones,
                boundary,
                tier_target_rows,
                k,
            );
        }
    }
}

/// Plans the job of one table: the bounded run to replace, the inputs newest
/// first, and what the run costs. There is no plan where no run has work.
pub fn plan_table_compaction(
    table_name: &str,
    segments: &Vec<SegmentRecord>,
    loaded: &Vec<SegmentVolume>,
    tombstones: &FxHashMap<i64, u64>,
    boundary: Option<u64>,
    tier_target_rows: usize,
    target_volume_rows: usize,
    max_input_segments: usize,
    max_input_bytes: u64,
    schema_epoch: u64,
) -> (r: Option<TableCompactionPlan>)
    ensures
        ({
            let candidates = candidates_of(
                segments@,
                segments@.len() as int,
                loaded@,
                tombstones@,
                boundary,
                tier_target_rows,
            );
            let ms = spec_max(max_input_segments as int, 1);
            let mb = spec_max(max_input_bytes as int, 1);
            match r {
                None => is_selected_run(candidates, ms, mb, Seq::empty()),
                Some(plan) => {
                    &&& plan.merge_indices@.len() > 0
                    &&& is_selected_run(candidates, ms, mb, plan.merge_indices@)
                    &&& plan_is_consistent(
                        plan,
                        table_name.spec_bytes(),
                        segments@,
                        loaded@,
                        tombstones@,
                        target_volume_rows,
                        schema_epoch,
                    )
                },
            }
        }),
{
    let candidates: Vec<CompactionCandidate> = plan_candidates(
        segments,
        loaded,
        tombstones,
        boundary,
        tier_target_rows,
    );
    let merge_indices: Vec<usize> = select_bounded_compaction_run(
        &candidates,
        max_input_segments,
        max_input_bytes,
    );
    let n: usize = merge_indices.len();
    if n == 0 {
        assert(merge_indices@ =~= Seq::empty());
        return None;
    }
    let ghost c = candidates@;
    proof {
        let ms = spec_max(max_input_segments as int, 1);
        let mb = spec_max(max_input_bytes as int, 1);
        assert(segments.len() <= usize::MAX);
        let (from, to) = choose|from: int, to: int| #[trigger]
            run_is_useful(c, from, to, ms, mb) && merge_indices@ == run_indices(c, from, to)
                && forall|earlier: int, end: int|
                earlier < from ==> !#[trigger] run_is_useful(c, earlier, end, ms, mb);
        assert forall|k: int| 0 <= k < n implies (#[trigger] merge_indices@[k]) < segments@.len()
            && loaded_index(loaded@, segments@[merge_indices@[k] as int].segment_id)
            is Some by {
            lemma_candidates_are_loaded(
                segments@,
                segments@.len() as int,
                loaded@,
                tombstones@,
                boundary,
                tier_target_rows,
                from + k,
            );
            assert(merge_indices@[k] == c[from + k].manifest_index);
        }
    }
    let mut old_ids: Vec<u64> = Vec::new();
    let mut k: usize = 0;
    while k < n
        invariant
            0 <= k <= n == merge_indices@.len(),
            old_ids@.len() == k,
            forall|j: int|
                0 <= j < n ==> (#[trigger] merge_indices@[j]) < segments@.len() && loaded_index(
                    loaded@,
                    segments@[merge_indices@[j] as int].segment_id,
                ) is Some,
            forall|j: int|
                0 <= j < k ==> old_ids@[j] == segments@[(
                #[trigger] merge_indices@[j]) as int].segment_id,
        decreases n - k,
    {
        old_ids.push(segments[merge_indices[k]].segment_id);
        k = k + 1;
    }
    let oversized_at: usize = oversized_threshold(target_volume_rows);
    let mut inputs: Vec<usize> = Vec::new();
    let mut input_rows: u64 = 0;
    let mut input_bytes: u64 = 0;
    let mut oversized: bool = false;
    let mut i: usize = 0;
    while i < n
        invariant
            0 <= i <= n == merge_indices@.len(),
            n == old_ids@.len(),
            inputs@.len() == i,
            oversized_at == oversized_rows(target_volume_rows),
            forall|j: int|
                0 <= j < n ==> (#[trigger] merge_indices@[j]) < segments@.len() && loaded_index(
                    loaded@,
                    segments@[merge_indices@[j] as int].segment_id,
                ) is Some,
            forall|j: int|
                0 <= j < n ==> old_ids@[j] == segments@[(
                #[trigger] merge_indices@[j]) as int].segment_id,
            forall|j: int|
                0 <= j < i ==> (#[trigger] inputs@[j]) < loaded@.len() && loaded_index(
                    loaded@,
                    old_ids@[n - 1 - j],
                ) == Some(inputs@[j] as int),
            input_rows == rows_of(loaded@, inputs@, i as int),
            input_bytes == bytes_of(loaded@, inputs@, i as int),
            oversized == any_input_oversized(loaded@, inputs@, target_volume_rows),
        decreases n - i,
    {
        let id: u64 = old_ids[n - 1 - i];
        assert(merge_indices@[n - 1 - i] < segments@.len());
        let at: usize = find_loaded(loaded, id).unwrap();
        let ghost before = inputs@;
        inputs.push(at);
        let rows: u64 = loaded[at].row_ids.len() as u64;
        proof {
            lemma_sums_push(loaded@, before, at, i as int);
            assert(inputs@[i as int] == at);
            if any_input_oversized(loaded@, before, target_volume_rows) {
                let w = choose|w: int|
                    0 <= w < before.len() && loaded@[#[trigger] before[w] as int].row_ids@.len()
                        > oversized_rows(target_volume_rows);
                assert(inputs@[w] == before[w]);
            }
            if any_input_oversized(loaded@, inputs@, target_volume_rows) {
                let w = choose|w: int|
                    0 <= w < inputs@.len() && loaded@[#[trigger] inputs@[w] as int].row_ids@.len()
                        > oversized_rows(target_volume_rows);
                if w < before.len() {
                    assert(before[w] == inputs@[w]);
                }
            }
        }
        input_rows = input_rows.saturating_add(rows);
        input_bytes = input_bytes.saturating_add(frozen_volume_physical_bytes(&loaded[at]));
        oversized = oversized || loaded[at].row_ids.len() > oversized_at;
        i = i + 1;
    }
    let reason: CompactionReason = if oversized {
        CompactionReason::OversizedSegmentSplit
    } else if !no_tombstones(tombstones) {
        CompactionReason::TombstoneCleanup
    } else {
        CompactionReason::SubTargetMerge
    };
    let signature: u64 = compaction_job_signature(table_name, schema_epoch, &old_ids);
    Some(
        TableCompactionPlan {
            merge_indices,
            old_ids,
            inputs,
            reason,
            input_rows,
            input_bytes,
            signature,
        },
    )
}

proof fn lemma_sums_push(loaded: Seq<SegmentVolume>, inputs: Seq<usize>, at: usize, n: int)
    requires
        0 <= n <= inputs.len(),
    ensures
        rows_of(loaded, inputs.push(at), n) == rows_of(loaded, inputs, n),
        bytes_of(loaded, inputs.push(at), n) == bytes_of(loaded, inputs, n),
    decreases n,
{
    if n > 0 {
        lemma_sums_push(loaded, inputs, at, n - 1);
        assert(inputs.push(at)[n - 1] == inputs[n - 1]);
    }
}

/// One output segment of a job.
#[derive(Debug, Clone, Copy, PartialEq, Eq, Structural)]
pub struct StagedOutput {
    pub row_count: u64,
    pub physical_bytes: u64,
    pub has_index: bool,
}

/// Totals over the outputs of a job.
#[derive(Debug, Clone, Copy, PartialEq, Eq, Structural)]
pub struct OutputTotals {
    pub rows: u64,
    pub bytes: u64,
    pub posting_outputs: u64,
}

pub open spec fn output_rows(outputs: Seq<StagedOutput>) -> int
    decreases outputs.len(),
{
    if outputs.len() == 0 {
        0
    } else {
        sat64(output_rows(outputs.drop_last()) + outputs.last().row_count)
    }
}

pub open spec fn output_bytes(outputs: Seq<StagedOutput>) -> int
    decreases outputs.len(),
{
    if outputs.len() == 0 {
        0
    } else {
        sat64(output_bytes(outputs.drop_last()) + outputs.last().physical_bytes)
    }
}

pub open spec fn indexed_outputs(outputs: Seq<StagedOutput>) -> int
    decreases outputs.len(),
{
    if outputs.len() == 0 {
        0
    } else {
        indexed_outputs(outputs.drop_last()) + if outputs.last().has_index {
            1int
        } else {
            0
        }
    }
}

pub fn output_totals(outputs: &Vec<StagedOutput>) -> (r: OutputTotals)
    ensures
        r.rows == output_rows(outputs@),
        r.bytes == output_bytes(outputs@),
        r.posting_outputs == indexed_outputs(outputs@),
{
    let mut rows: u64 = 0;
    let mut bytes: u64 = 0;
    let mut posting_outputs: u64 = 0;
    let mut i: usize = 0;
    while i < outputs.len()
        invariant
            0 <= i <= outputs@.len(),
            rows == output_rows(outputs@.take(i as int)),
            bytes == output_bytes(outputs@.take(i as int)),
            posting_outputs == indexed_outputs(outputs@.take(i as int)),
            posting_outputs <= i,
        decreases outputs@.len() - i,
    {
        let output: StagedOutput = outputs[i];
        assert(outputs@.take(i + 1).drop_last() =~= outputs@.take(i as int));
        rows = rows.saturating_add(output.row_count);
        bytes = bytes.saturating_add(output.physical_bytes);
        if output.has_index {
            posting_outputs = posting_outputs + 1;
        }
        i = i + 1;
    }
    assert(outputs@.take(i as int) =~= outputs@);
    OutputTotals { rows, bytes, posting_outputs }
}

/// Rows and bytes that a finished job freed: all input where nothing was
/// written, otherwise what the output saved.
pub fn reclaimed(
    input_rows: u64,
    input_bytes: u64,
    wrote_output: bool,
    totals: OutputTotals,
) -> (r: (u64, u64))
    ensures
        r.0 == if wrote_output {
            monus(input_rows as int, totals.rows as int)
        } else {
            input_rows as int
        },
        r.1 == if wrote_output {
            monus(input_bytes as int, totals.bytes as int)
        } else {
            input_bytes as int
        },
{
    if wrote_output {
        (input_rows.saturating_sub(totals.rows), input_bytes.saturating_sub(totals.bytes))
    } else {
        (input_rows, input_bytes)
    }
}

/// How the ledgers record a job that did not publish.
#[derive(Debug)]
pub struct JobFailure {
    pub reason: String,
    /// Invalidated by a cooperative abort, as opposed to failed.
    pub invalidated: bool,
    /// The inputs may be retried at once.
    pub clears_cooldown: bool,
}

/// `reason` is the abort reason of the error, or the fallback without one.
pub open spec fn reason_or(error: ErrorView, fallback: Seq<char>, reason: Seq<char>) -> bool {
    match error {
        ErrorView::Internal(message) => if names_an_abort(message) {
            is_abort_reason(message, reason)
        } else {
            reason == fallback
        },
        _ => reason == fallback,
    }
}

pub open spec fn is_abort(error: ErrorView) -> bool {
    match error {
        ErrorView::Internal(message) => names_an_abort(message),
        _ => false,
    }
}

fn abort_reason_or(error: &Error, fallback: &str) -> (r: String)
    ensures
        reason_or(error@, fallback@, r@),
{
    match compaction_abort_reason(error) {
        Some(reason) => reason,
        None => String::from_str(fallback),
    }
}

/// The disk or time budget refused the job before it wrote anything.
pub fn admission_failure(error: &Error) -> (r: JobFailure)
    ensures
        reason_or(error@, "budget_admission_failed"@, r.reason@),
        r.invalidated,
        !r.clears_cooldown,
{
    JobFailure {
        reason: abort_reason_or(error, "budget_admission_failed"),
        invalidated: true,
        clears_cooldown: false,
    }
}

/// Merging or staging stopped: an abort invalidates the job, anything else
/// fails it.
pub fn output_failure(error: &Error) -> (r: JobFailure)
    ensures
        reason_or(error@, "output_write_failed"@, r.reason@),
        r.invalidated == is_abort(error@),
        !r.clears_cooldown,
{
    match compaction_abort_reason(error) {
        Some(reason) => JobFailure { reason, invalidated: true, clears_cooldown: false },
        None => JobFailure {
            reason: String::from_str("output_write_failed"),
            invalidated: false,
            clears_cooldown: false,
        },
    }
}

/// The inputs changed before publication.
pub fn liveness_failure(error: &Error) -> (r: JobFailure)
    ensures
        reason_or(error@, "prepublication_cancelled"@, r.reason@),
        r.invalidated,
        !r.clears_cooldown,
{
    JobFailure {
        reason: abort_reason_or(error, "prepublication_cancelled"),
        invalidated: true,
        clears_cooldown: false,
    }
}

/// Publication refused the job. Losing the optimistic race is expected and
/// must not put the inputs on cooldown.
pub fn publication_failure(error: &Error) -> (r: JobFailure)
    ensures
        r.invalidated,
        r.clears_cooldown == is_stale(error@),
        r.reason@ == if is_stale(error@) {
            stale_reason()
        } else {
            "physical_publication_rejected"@
        },
{
    if compaction_publication_is_stale(error) {
        JobFailure {
            reason: String::from_str("physical_generation_stale"),
            invalidated: true,
            clears_cooldown: true,
        }
    } else {
        JobFailure {
            reason: String::from_str("physical_publication_rejected"),
            invalidated: true,
            clears_cooldown: false,
        }
    }
}

/// Why a planned job may no longer go on, if it may not.
pub open spec fn liveness_refusal(
    table_name: Seq<char>,
    planned_schema_epoch: u64,
    current_schema_epoch: u64,
    token_error: Option<Seq<char>>,
) -> Option<ErrorView> {
    if current_schema_epoch != planned_schema_epoch {
        Some(
            ErrorView::Internal(
                abort_message(
                    "schema_epoch_changed"@,
                    "table '"@ + table_name + "' planned at "@ + decimal_digits(
                        planned_schema_epoch as nat,
                    ) + ", current "@ + decimal_digits(current_schema_epoch as nat),
                ),
            ),
        )
    } else {
        match token_error {
            Some(text) => Some(
                ErrorView::Internal(
                    abort_message(
                        "input_snapshot_changed"@,
                        "table '"@ + table_name + "': "@ + text,
                    ),
                ),
            ),
            None => None,
        }
    }
}

/// Whether the schema and the inputs are still those that were planned. The
/// caller hands in what re-checking the inputs reported.
pub fn validate_compaction_job_live(
    table_name: &str,
    planned_schema_epoch: u64,
    current_schema_epoch: u64,
    token_error: Option<String>,
) -> (r: Result<(), Error>)
    ensures
        ({
            let refusal = liveness_refusal(
                table_name@,
                planned_schema_epoch,
                current_schema_epoch,
                match token_error {
                    Some(text) => Some(text@),
                    None => None,
                },
            );
            match r {
                Ok(()) => refusal is None,
                Err(e) => refusal == Some(e@),
            }
        }),
{
    if current_schema_epoch != planned_schema_epoch {
        let detail: String = String::from_str("table '").concat(table_name).concat(
            "' planned at ",
        ).concat(decimal(planned_schema_epoch).as_str()).concat(", current ").concat(
            decimal(current_schema_epoch).as_str(),
        );
        return Err(compaction_abort("schema_epoch_changed", detail.as_str()));
    }
    match token_error {
        Some(text) => {
            let detail: String = String::from_str("table '").concat(table_name).concat(
                "': ",
            ).concat(text.as_str());
            Err(compaction_abort("input_snapshot_changed", detail.as_str()))
        },
        None => Ok(()),
    }
}

/// What a wave reports once its jobs are done: whether tables were left for a
/// later wave. Without work there is nothing to leave.
pub fn compact_volumes_limited(wave: &Option<CompactionWave>, jobs: Result<(), Error>) -> (r: Result<
    bool,
    Error,
>)
    ensures
        match (*wave, jobs) {
            (None, _) => r == Ok::<bool, Error>(false),
            (Some(_), Err(e)) => r == Err::<bool, Error>(e),
            (Some(w), Ok(_)) => r == Ok::<bool, Error>(w.more_candidates),
        },
{
    match wave {
        None => Ok(false),
        Some(w) => match jobs {
            Err(e) => Err(e),
            Ok(_) => Ok(w.more_candidates),
        },
    }
}

} // verus!
