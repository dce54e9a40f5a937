//! Planning, merging, budgets, cooldown and the steps of a compaction job.
use radixdb_engine::compaction::abort::compaction_abort;
use radixdb_engine::compaction::abort::compaction_abort_reason;
use radixdb_engine::compaction::abort::compaction_publication_is_stale;
use radixdb_engine::compaction::abort::is_artifact_adaptive_capacity_error;
use radixdb_engine::compaction::budget::CompactionDiskReservationPool;
use radixdb_engine::compaction::budget::CompactionExecutionBudget;
use radixdb_engine::compaction::cooldown::CompactionRetryCooldown;
use radixdb_engine::compaction::cooldown::CompactionRetryJob;
use radixdb_engine::compaction::cooldown::MAX_COMPACTION_RETRY_ENTRIES;
use radixdb_engine::compaction::eviction::EvictionPass;
use radixdb_engine::compaction::job::compact_volumes_limited;
use radixdb_engine::compaction::job::output_totals;
use radixdb_engine::compaction::job::plan_compaction_wave;
use radixdb_engine::compaction::job::plan_table_compaction;
use radixdb_engine::compaction::job::reclaimed;
use radixdb_engine::compaction::job::validate_compaction_job_live;
use radixdb_engine::compaction::job::CompactionConfig;
use radixdb_engine::compaction::job::CompactionReason;
use radixdb_engine::compaction::job::StagedOutput;
use radixdb_engine::compaction::job::WaveTable;
use radixdb_engine::compaction::merge::accounted_read_bytes;
use radixdb_engine::compaction::merge::compaction_chunk_rows;
use radixdb_engine::compaction::merge::is_accounting_point;
use radixdb_engine::compaction::merge::merge_compaction_rows;
use radixdb_engine::compaction::plan::compaction_io_rate_per_job;
use radixdb_engine::compaction::plan::effective_compaction_input_budget;
use radixdb_engine::compaction::plan::frozen_volume_physical_bytes;
use radixdb_engine::compaction::plan::oversized_threshold;
use radixdb_engine::compaction::plan::plan_candidates;
use radixdb_engine::compaction::plan::select_bounded_compaction_run;
use radixdb_engine::compaction::plan::size_tier_target_rows;
use radixdb_engine::compaction::plan::table_needs_compaction;
use radixdb_engine::compaction::plan::tombstone_impact;
use radixdb_engine::compaction::plan::CompactionCandidate;
use radixdb_engine::compaction::plan::SegmentLevel;
use radixdb_engine::compaction::plan::SegmentRecord;
use radixdb_engine::compaction::plan::SegmentVolume;
use radixdb_engine::compaction::plan::TableCompactionView;
use radixdb_engine::compaction::plan::TombstoneImpact;
use radixdb_engine::compaction::row_ref::locate_value;
use radixdb_engine::compaction::row_ref::CompactionRowRef;
use radixdb_engine::compaction::row_ref::CompactionRowRefSpool;
use radixdb_engine::compaction::row_ref::SpoolLookup;
use radixdb_engine::compaction::run::CompactionRun;
use radixdb_engine::compaction::run::JobAction;
use radixdb_engine::compaction::run::JobEvent;
use radixdb_engine::compaction::run::JobInputs;
use radixdb_engine::compaction::run::JobPhase;
use radixdb_engine::compaction::schedule::after_compaction_try;
use radixdb_engine::compaction::schedule::judge_batch;
use radixdb_engine::compaction::schedule::limit_compaction_wave;
use radixdb_engine::compaction::schedule::plan_compaction_jobs;
use radixdb_engine::compaction::schedule::prioritize_compaction_tables;
use radixdb_engine::compaction::schedule::run_compaction_job_with_stale_replans;
use radixdb_engine::compaction::schedule::JobOutcome;
use radixdb_engine::compaction::schedule::ReplanStep;
use radixdb_engine::compaction::staging::split_range;
use radixdb_engine::compaction::staging::RowRange;
use radixdb_engine::compaction::staging::StagingPlan;
use radixdb_engine::compaction::tombstones::fully_retired_tombstone_rows;
use radixdb_engine::compaction::tombstones::post_compaction_tombstones;
use radixdb_engine::error::Error;
use radixdb_engine::pressure::l0_pressure_limits;
use radixdb_engine::pressure::L0DebtSnapshot;
use radixdb_engine::pressure::L0PressureLimits;
use radixdb_engine::pressure::TableDebt;
use radixdb_engine::runtime::cost::EngineCompactionCostState;
use rustc_hash::FxHashMap;

fn volume(segment_id: u64, row_ids: &[i64], bytes: u64) -> SegmentVolume {
    SegmentVolume {
        segment_id,
        row_ids: row_ids.to_vec(),
        data_bytes: Some(bytes),
        index_bytes: None,
    }
}

fn deleted(rows: &[(i64, u64)]) -> FxHashMap<i64, u64> {
    rows.iter().copied().collect()
}

fn record(segment_id: u64, level: SegmentLevel, row_count: usize) -> SegmentRecord {
    SegmentRecord { segment_id, level, row_count, seal_seq: 0 }
}

fn candidate(manifest_index: usize, physical_bytes: u64, must_rewrite: bool) -> CompactionCandidate {
    CompactionCandidate { manifest_index, physical_bytes, must_rewrite }
}

fn reference(row_id: i64, volume: u32, row: u32) -> CompactionRowRef {
    CompactionRowRef { row_id, volume, row }
}

fn message_of(error: &Error) -> String {
    match error {
        Error::Internal { message } => message.clone(),
        other => panic!("not an internal error: {other:?}"),
    }
}

fn limits() -> L0PressureLimits {
    l0_pressure_limits(4, 8, 1000, 2000, 10)
}

fn table_debt(table: &str, segments: u64, physical_bytes: u64) -> TableDebt {
    TableDebt { table: table.to_string(), debt: L0DebtSnapshot { segments, physical_bytes } }
}

#[test]
fn sizes_and_tiers_are_exact() {
    let mut v = volume(1, &[1], 10);
    assert_eq!(frozen_volume_physical_bytes(&v), 10);
    v.index_bytes = Some(u64::MAX);
    assert_eq!(frozen_volume_physical_bytes(&v), u64::MAX);
    assert_eq!(size_tier_target_rows(100, 4), 400);
    assert_eq!(size_tier_target_rows(100, 1), 200);
    assert_eq!(oversized_threshold(400), 600);
    assert_eq!(oversized_threshold(3), 4);
}

#[test]
fn tables_with_enough_neighbours_need_compaction() {
    let mut table = TableCompactionView {
        segments: vec![
            record(1, SegmentLevel::L0, 900),
            record(2, SegmentLevel::L1, 900),
            record(3, SegmentLevel::L0, 10),
        ],
        has_tombstones: false,
        segment_count: 3,
        max_segment_row_count: 900,
    };
    assert!(!table_needs_compaction(&table, 2, 800));
    assert!(table_needs_compaction(&table, 2, 1000));
    table.has_tombstones = true;
    assert!(table_needs_compaction(&table, 2, 800));
    table.has_tombstones = false;
    table.max_segment_row_count = 1201;
    assert!(table_needs_compaction(&table, 2, 800));
}

#[test]
fn tombstones_dirty_or_block_a_segment() {
    let ids = vec![1, 2, 3];
    assert_eq!(tombstone_impact(&ids, &deleted(&[]), None), TombstoneImpact::Clean);
    assert_eq!(tombstone_impact(&ids, &deleted(&[(2, 5)]), None), TombstoneImpact::Dirty);
    assert_eq!(tombstone_impact(&ids, &deleted(&[(2, 5)]), Some(5)), TombstoneImpact::Blocked);
    assert_eq!(tombstone_impact(&ids, &deleted(&[(2, 5)]), Some(6)), TombstoneImpact::Dirty);
    assert_eq!(tombstone_impact(&ids, &deleted(&[(9, 5)]), Some(1)), TombstoneImpact::Clean);
}

#[test]
fn candidates_skip_unloaded_and_newer_segments() {
    let mut late = record(3, SegmentLevel::L0, 1);
    late.seal_seq = 50;
    let segments = vec![
        record(1, SegmentLevel::L0, 1),
        record(2, SegmentLevel::L0, 1),
        late,
        record(4, SegmentLevel::L1, 5000),
    ];
    let loaded = vec![volume(1, &[1], 11), volume(3, &[3], 13), volume(4, &[4], 14)];
    let found = plan_candidates(&segments, &loaded, &deleted(&[]), Some(10), 1000);
    assert_eq!(found, vec![candidate(0, 11, false), candidate(3, 14, true)]);
    let open = plan_candidates(&segments, &loaded, &deleted(&[]), None, 1000);
    assert_eq!(open.len(), 3);
}

#[test]
fn selected_run_stays_within_its_limits() {
    let found = vec![
        candidate(0, 10, false),
        candidate(1, 10, false),
        candidate(2, 10, false),
        candidate(4, 10, false),
    ];
    assert_eq!(select_bounded_compaction_run(&found, 8, 100), vec![0, 1, 2]);
    assert_eq!(select_bounded_compaction_run(&found, 2, 100), vec![0, 1]);
    assert_eq!(select_bounded_compaction_run(&found, 8, 20), vec![0, 1]);
    let lone: Vec<usize> = Vec::new();
    assert_eq!(select_bounded_compaction_run(&vec![candidate(3, 1, false)], 8, 100), lone);
    assert_eq!(select_bounded_compaction_run(&vec![candidate(3, 99, true)], 8, 100), vec![3]);
    assert_eq!(select_bounded_compaction_run(&vec![candidate(3, 101, true)], 8, 100), lone);
}

#[test]
fn input_budget_follows_time_and_rate() {
    assert_eq!(effective_compaction_input_budget(500, 400, 0, 0), 400);
    assert_eq!(effective_compaction_input_budget(500, 400, 1000, 200), 100);
    assert_eq!(effective_compaction_input_budget(500, 400, 1, 1), 1);
    assert_eq!(compaction_io_rate_per_job(100, 4), 25);
    assert_eq!(compaction_io_rate_per_job(0, 4), 0);
    assert_eq!(compaction_io_rate_per_job(3, 9), 1);
}

#[test]
fn row_reference_round_trips() {
    let x = CompactionRowRef::new(-5, 7, 9).expect("small indexes fit");
    let bytes = x.encode();
    assert_eq!(&bytes[8..12], &[7, 0, 0, 0]);
    assert_eq!(CompactionRowRef::decode(&bytes), x);
    assert_eq!((x.vol_idx(), x.row_idx()), (7, 9));
    let error = CompactionRowRef::new(1, 4_294_967_296, 0).expect_err("too many volumes");
    assert_eq!(
        message_of(&error),
        "compaction volume index 4294967296 exceeds artifact-backed metadata limit 4294967295"
    );
    let error = CompactionRowRef::new(1, 0, 4_294_967_296).expect_err("too many rows");
    assert!(message_of(&error).starts_with("compaction row index 4294967296"));
}

#[test]
fn spool_reads_back_what_was_appended() {
    let mut spool = CompactionRowRefSpool::create();
    assert!(spool.is_empty());
    let mut file: Vec<u8> = Vec::new();
    for i in 0..5000_i64 {
        if let Some(write) = spool.append(reference(i, 1, i as u32)).expect("room") {
            assert_eq!(write.offset as usize, file.len());
            file.extend_from_slice(&write.bytes);
        }
    }
    assert_eq!(file.len(), 4096 * 16);
    if let Some(write) = spool.flush_appends().expect("room") {
        file.extend_from_slice(&write.bytes);
    }
    assert_eq!(spool.len(), 5000);
    assert_eq!(file.len(), 5000 * 16);
    let read = match spool.ref_at(4321).expect("in bounds") {
        SpoolLookup::Load(read) => read,
        SpoolLookup::Ready(_) => panic!("nothing is resident yet"),
    };
    assert_eq!((read.first_row, read.rows, read.offset), (0, 5000, 0));
    spool.install_group(read, &file);
    match spool.ref_at(4321).expect("in bounds") {
        SpoolLookup::Ready(x) => assert_eq!(x, reference(4321, 1, 4321)),
        SpoolLookup::Load(_) => panic!("the group is resident"),
    }
    let error = spool.ref_at(5000).expect_err("past the end");
    assert_eq!(message_of(&error), "compaction row ref 5000 out of bounds");
}

#[test]
fn values_are_located_through_volume_and_mapping() {
    let x = reference(9, 2, 6);
    let at = locate_value(4, &x, 3, 3).expect("both exist");
    assert_eq!((at.volume, at.row), (2, 6));
    let error = locate_value(4, &x, 2, 3).expect_err("no such volume");
    assert_eq!(message_of(&error), "compaction row ref 4 has invalid volume index 2");
    let error = locate_value(4, &x, 3, 2).expect_err("no such mapping");
    assert_eq!(message_of(&error), "compaction row ref 4 has no column mapping for volume 2");
}

#[test]
fn newest_copy_survives_the_merge() {
    let volumes = vec![volume(2, &[2, 4], 0), volume(1, &[1, 2, 3], 0)];
    let merged = merge_compaction_rows(&volumes, &deleted(&[(3, 7)]), None).expect("fits");
    assert_eq!(merged, vec![reference(1, 1, 0), reference(2, 0, 0), reference(4, 0, 1)]);
    let kept = merge_compaction_rows(&volumes, &deleted(&[(3, 7)]), Some(7)).expect("fits");
    assert_eq!(kept.len(), 4);
    assert_eq!(merge_compaction_rows(&vec![], &deleted(&[]), None).expect("fits").len(), 0);
}

#[test]
fn chunks_and_accounting_follow_row_groups() {
    assert_eq!(compaction_chunk_rows(10), 65_536);
    assert_eq!(compaction_chunk_rows(200_000), 196_608);
    assert_eq!(accounted_read_bytes(1000, 5, 10), 500);
    assert_eq!(accounted_read_bytes(1000, 50, 10), 1000);
    assert_eq!(accounted_read_bytes(7, 0, 0), 0);
    assert!(is_accounting_point(65_536));
    assert!(!is_accounting_point(65_535));
}

#[test]
fn retired_rows_are_those_no_other_segment_holds() {
    let snapshot = deleted(&[(1, 5), (2, 5), (3, 9)]);
    let selected = vec![volume(10, &[1, 2, 3], 0)];
    let current = vec![volume(10, &[1, 2, 3], 0), volume(11, &[2], 0)];
    let retired = fully_retired_tombstone_rows(&snapshot, Some(9), &selected, &current);
    assert!(retired.contains(&1));
    assert!(!retired.contains(&2));
    assert!(!retired.contains(&3));
    let now = deleted(&[(1, 5), (2, 5), (3, 9), (4, 12)]);
    let (left, changed) = post_compaction_tombstones(&now, &snapshot, Some(9), &retired);
    assert!(changed);
    assert_eq!(left, deleted(&[(2, 5), (3, 9), (4, 12)]));
    let newer = deleted(&[(1, 8)]);
    let (left, changed) = post_compaction_tombstones(&newer, &snapshot, Some(9), &retired);
    assert!(!changed);
    assert_eq!(left, newer);
}

#[test]
fn abort_reasons_are_read_back() {
    let error = compaction_abort("schema_epoch_changed", "table 't': moved");
    assert_eq!(
        message_of(&error),
        "compaction_cooperative_abort:schema_epoch_changed: table 't': moved"
    );
    assert_eq!(compaction_abort_reason(&error), Some("schema_epoch_changed".to_string()));
    assert_eq!(compaction_abort_reason(&Error::internal("other")), None);
    assert_eq!(compaction_abort_reason(&Error::EngineNotOpen), None);
    assert!(!compaction_publication_is_stale(&error));
    assert!(compaction_publication_is_stale(&compaction_abort("physical_generation_stale", "x")));
    assert!(!is_artifact_adaptive_capacity_error(&Error::EngineNotOpen));
}

#[test]
fn reservations_share_one_pool() {
    let mut pool = CompactionDiskReservationPool::new();
    let mut first = pool.reserve(100, 50, Ok(Some(1000))).expect("room");
    let second = pool.reserve(0, 50, Ok(None)).expect("the platform cannot tell");
    assert_eq!(pool.remaining_output_bytes, 101);
    let error = pool.reserve(900, 50, Ok(Some(1000))).expect_err("too little left");
    assert_eq!(
        message_of(&error),
        "compaction_cooperative_abort:disk_reserve_exhausted: available 1000 bytes, required 1051 bytes"
    );
    first.account_output(&mut pool, 40);
    assert_eq!(pool.remaining_output_bytes, 61);
    first.release(&mut pool);
    second.release(&mut pool);
    assert_eq!(pool.remaining_output_bytes, 0);
    let error = pool.reserve(u64::MAX, 1, Ok(None)).expect_err("overflow");
    assert!(message_of(&error).ends_with("aggregate compaction disk reserve overflow"));
}

#[test]
fn execution_budget_limits_time_output_and_rate() {
    let mut pool = CompactionDiskReservationPool::new();
    let mut budget = CompactionExecutionBudget::new(5, 1000, 100, 10);
    assert!(budget.ensure_time(4_999_999).is_ok());
    let error = budget.ensure_time(5_000_000).expect_err("late");
    assert_eq!(
        message_of(&error),
        "compaction_cooperative_abort:time_budget_exceeded: elapsed 5 ms"
    );
    budget.account_read_bytes(10);
    budget.account_read_bytes(4);
    assert_eq!(budget.read_bytes, 10);
    assert_eq!(budget.throttle_nanos(0), 10_000_000);
    assert_eq!(budget.throttle_nanos(10_000_000), 0);
    assert!(matches!(budget.throttle(true, 0, Ok(())), Ok(10_000_000)));
    assert!(budget.throttle(false, 10_000_000, Ok(())).is_err());
    let mut paced = CompactionExecutionBudget::new(0, 1000, 100, 10);
    paced.account_read_bytes(10);
    let gone = || Err(Error::internal("gone"));
    assert!(paced.throttle(true, 10_000_000, gone()).is_err());
    assert!(paced.throttle(false, 0, gone()).is_err());
    assert!(matches!(paced.throttle(false, 10_000_000, gone()), Ok(0)));
    assert!(budget.ensure_output_headroom(&pool, 0, Ok(Some(110))).is_ok());
    assert!(budget.ensure_output_headroom(&pool, 0, Ok(Some(109))).is_err());
    let reservation = pool.reserve(100, 10, Ok(None)).expect("room");
    budget.attach_disk_reservation(reservation);
    assert!(budget.account_output_bytes(100).is_ok());
    budget.settle_output(&mut pool, 100);
    assert_eq!(pool.remaining_output_bytes, 0);
    let error = budget.account_output_bytes(1).expect_err("over the limit");
    assert_eq!(
        message_of(&error),
        "compaction_cooperative_abort:output_budget_exceeded: generated 101 bytes, limit 100 bytes"
    );
}

#[test]
fn failed_inputs_cool_down() {
    let mut cooldown = CompactionRetryCooldown::new();
    let mut job = CompactionRetryJob::new(7, 100);
    job.set_reason("disk");
    job.abandon(&mut cooldown, 1000, 5000);
    assert!(cooldown.should_defer(7, 1099));
    assert!(!cooldown.should_defer(8, 1099));
    let shown = cooldown.snapshot(1099);
    assert!(shown.active);
    assert_eq!((shown.until_unix_millis, shown.suppressed), (5100, 1));
    assert_eq!(shown.last_reason, "disk");
    assert!(!cooldown.should_defer(7, 1100));

    let job = CompactionRetryJob::new(7, 100);
    assert_eq!(job.reason, "failed_unclassified");
    job.abandon(&mut cooldown, 2000, 0);
    CompactionRetryJob::new(7, 100).success(&mut cooldown);
    assert!(!cooldown.should_defer(7, 2001));

    for signature in 0..=MAX_COMPACTION_RETRY_ENTRIES as u64 {
        cooldown.record(signature, 100, "r", 3000, 0);
    }
    assert_eq!(cooldown.active.len(), MAX_COMPACTION_RETRY_ENTRIES);
    assert!(!cooldown.should_defer(0, 3000));
    assert!(cooldown.should_defer(1, 3000));
}

#[test]
fn urgent_tables_come_first() {
    let mut tables = vec![
        table_debt("calm", 1, 1),
        table_debt("zeta", 5, 10),
        table_debt("hard", 9, 0),
        table_debt("beta", 5, 10),
    ];
    prioritize_compaction_tables(&mut tables, limits());
    let names: Vec<&str> = tables.iter().map(|t| t.table.as_str()).collect();
    assert_eq!(names, vec!["hard", "beta", "zeta", "calm"]);
    assert!(limit_compaction_wave(&mut tables, Some(2)));
    assert_eq!(tables.len(), 2);
    assert!(!limit_compaction_wave(&mut tables, None));
    assert!(limit_compaction_wave(&mut tables, Some(0)));
    assert_eq!(tables.len(), 1);
}

#[test]
fn jobs_are_owned_by_one_table_each() {
    let tables = vec!["a".to_string(), "b".to_string(), "c".to_string()];
    assert_eq!(plan_compaction_jobs(&tables, 2, 8).expect("distinct"), 2);
    assert_eq!(plan_compaction_jobs(&tables, 0, 8).expect("distinct"), 1);
    assert_eq!(plan_compaction_jobs(&tables, 99, 8).expect("distinct"), 3);
    let twice = vec!["a".to_string(), "a".to_string()];
    let error = plan_compaction_jobs(&twice, 2, 8).expect_err("two owners");
    assert_eq!(message_of(&error), "compaction scheduler received a duplicate table owner");
}

#[test]
fn lost_races_are_replanned_and_failures_reported() {
    let stale = || compaction_abort("physical_generation_stale", "moved");
    let again = judge_batch(vec![
        JobOutcome::Finished(Ok(())),
        JobOutcome::Finished(Err(stale())),
        JobOutcome::Finished(Ok(())),
    ])
    .expect("no failure");
    assert_eq!(again, vec![1]);
    let error = judge_batch(vec![
        JobOutcome::Finished(Err(stale())),
        JobOutcome::Panicked,
        JobOutcome::Finished(Err(Error::internal("second"))),
    ])
    .expect_err("a worker panicked");
    assert_eq!(message_of(&error), "compaction worker panicked");

    assert!(matches!(after_compaction_try(0, Err(stale())), ReplanStep::Replan));
    assert!(matches!(after_compaction_try(1, Err(stale())), ReplanStep::Replan));
    assert!(matches!(after_compaction_try(2, Err(stale())), ReplanStep::Finish(Err(_))));
    assert!(matches!(after_compaction_try(0, Ok(())), ReplanStep::Finish(Ok(()))));

    let tries = std::cell::Cell::new(0);
    let compact = |_: &str| {
        tries.set(tries.get() + 1);
        Err(stale())
    };
    assert!(run_compaction_job_with_stale_replans("t", &compact).is_err());
    assert_eq!(tries.get(), 3);
}

#[test]
fn wave_divides_the_configured_rate() {
    let config = CompactionConfig {
        compact_threshold: 2,
        target_volume_rows: 100,
        max_jobs: 2,
        job_cap: 8,
        max_input_bytes: 1000,
        max_output_bytes: 900,
        job_time_budget_ms: 0,
        io_bytes_per_sec: 100,
    };
    let busy = |name: &str, segments: u64| WaveTable {
        name: name.to_string(),
        view: TableCompactionView {
            segments: vec![record(1, SegmentLevel::L0, 1), record(2, SegmentLevel::L0, 1)],
            has_tombstones: false,
            segment_count: 2,
            max_segment_row_count: 1,
        },
        debt: L0DebtSnapshot { segments, physical_bytes: 0 },
    };
    let tables = vec![busy("a", 1), busy("b", 9), busy("c", 5)];
    let wave = plan_compaction_wave(&tables, config, limits(), Some(2), false, true)
        .expect("three tables have work");
    assert_eq!(wave.tables, vec!["b".to_string(), "c".to_string()]);
    assert!(wave.more_candidates);
    assert_eq!(wave.job_slots, 2);
    assert_eq!(wave.io_bytes_per_job, 50);
    assert_eq!(wave.max_input_bytes, 900);
    assert_eq!(wave.tier_target_rows, 200);
    assert!(plan_compaction_wave(&tables, config, limits(), None, true, true).is_none());
    assert!(plan_compaction_wave(&tables, config, limits(), None, false, false).is_none());
    assert!(plan_compaction_wave(&vec![], config, limits(), None, false, true).is_none());
    let wave = Some(wave);
    assert!(matches!(compact_volumes_limited(&wave, Ok(())), Ok(true)));
    assert!(matches!(compact_volumes_limited(&None, Ok(())), Ok(false)));
    assert!(compact_volumes_limited(&wave, Err(Error::EngineNotOpen)).is_err());
}

#[test]
fn table_plan_walks_inputs_newest_first() {
    let segments = vec![record(5, SegmentLevel::L0, 2), record(3, SegmentLevel::L0, 1)];
    let loaded = vec![volume(3, &[9], 30), volume(5, &[1, 2], 50)];
    let plan = plan_table_compaction(
        "t", &segments, &loaded, &deleted(&[]), None, 1000, 500, 8, 1000, 4,
    )
    .expect("two neighbours");
    assert_eq!(plan.merge_indices, vec![0, 1]);
    assert_eq!(plan.old_ids, vec![5, 3]);
    assert_eq!(plan.inputs, vec![0, 1]);
    assert_eq!(plan.reason, CompactionReason::SubTargetMerge);
    assert_eq!(plan.reason.as_str(), "sub_target_merge");
    assert_eq!((plan.input_rows, plan.input_bytes), (3, 80));
    assert_ne!(plan.signature, 0);
    let cleaned = plan_table_compaction(
        "t", &segments, &loaded, &deleted(&[(1, 2)]), None, 1000, 500, 8, 1000, 4,
    )
    .expect("a dirty segment");
    assert_eq!(cleaned.reason, CompactionReason::TombstoneCleanup);
    let idle = plan_table_compaction(
        "t", &segments[..1].to_vec(), &loaded, &deleted(&[]), None, 1000, 500, 8, 1000, 4,
    );
    assert!(idle.is_none());
}

#[test]
fn outputs_are_totalled_and_reclaimed() {
    let outputs = vec![
        StagedOutput { row_count: 3, physical_bytes: 30, has_index: true },
        StagedOutput { row_count: 4, physical_bytes: 40, has_index: false },
    ];
    let totals = output_totals(&outputs);
    assert_eq!((totals.rows, totals.bytes, totals.posting_outputs), (7, 70, 1));
    assert_eq!(reclaimed(10, 100, true, totals), (3, 30));
    assert_eq!(reclaimed(10, 100, false, totals), (10, 100));
    assert_eq!(reclaimed(1, 1, true, totals), (0, 0));
}

#[test]
fn job_lives_as_long_as_its_schema_and_inputs() {
    assert!(validate_compaction_job_live("t", 3, 3, None).is_ok());
    let error = validate_compaction_job_live("t", 3, 4, None).expect_err("schema moved");
    assert_eq!(compaction_abort_reason(&error), Some("schema_epoch_changed".to_string()));
    let error = validate_compaction_job_live("t", 3, 3, Some("gone".to_string()))
        .expect_err("inputs moved");
    assert!(compaction_abort_reason(&error).is_some());
}

#[test]
fn ranges_split_at_row_groups() {
    assert_eq!(split_range(RowRange { start: 0, end: 10 }), 5);
    assert_eq!(split_range(RowRange { start: 100, end: 100 + 200_000 }), 100 + 65_536);
    let mut plan = StagingPlan::new(4);
    assert!(plan.split_next());
    assert_eq!(plan.next_range(), Some(RowRange { start: 0, end: 2 }));
    plan.staged_next();
    assert_eq!(plan.next_range(), Some(RowRange { start: 2, end: 4 }));
    assert!(plan.split_next());
    assert!(!plan.split_next());
    plan.staged_next();
    plan.staged_next();
    assert_eq!(plan.next_range(), None);
}

#[test]
fn eviction_frees_the_largest_tables_first() {
    let mut pass = EvictionPass::new(&vec![50, 10, 30], 60);
    assert_eq!(pass.to_free, 30);
    assert_eq!(pass.order, vec![0, 2, 1]);
    assert_eq!(pass.target(50), 20);
    pass.freed(25);
    assert_eq!(pass.target(30), 25);
    pass.freed(5);
    assert_eq!(pass.target(10), usize::MAX);
    assert_eq!(EvictionPass::new(&vec![50, 10], 60).to_free, 0);
}

fn inputs() -> JobInputs {
    JobInputs {
        table: "t".to_string(),
        volumes: vec![volume(2, &[2, 4], 0), volume(1, &[1, 2, 3], 0)],
        tombstones: deleted(&[(3, 7)]),
        boundary: None,
        input_rows: 5,
        input_bytes: 100,
        target_rows: 10,
    }
}

fn merged_run() -> (CompactionRun, Vec<i64>) {
    let mut run = CompactionRun::new(inputs());
    assert!(matches!(run.action(), JobAction::BeginPublication));
    assert!(matches!(run.advance(JobEvent::Outcome(Ok(()))), JobAction::ReserveDisk));
    assert!(matches!(run.advance(JobEvent::Outcome(Ok(()))), JobAction::CheckHeadroom));
    let mut action = run.advance(JobEvent::Outcome(Ok(())));
    assert!(matches!(action, JobAction::CreateSpool));
    let mut rows = Vec::new();
    action = run.advance(JobEvent::Text(Ok(())));
    while let JobAction::Append { row_ref } = action {
        rows.push(row_ref.row_id);
        action = run.advance(JobEvent::Text(Ok(())));
    }
    assert!(matches!(action, JobAction::AccountRead { bytes: 100 }));
    (run, rows)
}

#[test]
fn job_merges_stages_and_publishes() {
    let (mut run, rows) = merged_run();
    assert_eq!(rows, vec![1, 2, 4]);
    assert!(matches!(run.advance(JobEvent::Outcome(Ok(()))), JobAction::StageRows));
    // An event that nothing waits for is ignored.
    assert!(matches!(run.advance(JobEvent::Snapshot(None)), JobAction::StageRows));
    let output = StagedOutput { row_count: 3, physical_bytes: 60, has_index: true };
    assert!(matches!(run.advance(JobEvent::Staged(Ok(vec![output]))), JobAction::CheckLive));
    match run.advance(JobEvent::Outcome(Ok(()))) {
        JobAction::EnterFence { runtime_ids, totals, reclaimed_rows, reclaimed_bytes } => {
            assert_eq!((runtime_ids, totals.rows, totals.bytes), (1, 3, 60));
            assert_eq!((reclaimed_rows, reclaimed_bytes), (2, 40));
        }
        other => panic!("unexpected action: {other:?}"),
    }
    assert!(matches!(run.advance(JobEvent::Outcome(Ok(()))), JobAction::Publish));
    assert!(matches!(run.advance(JobEvent::Published(Ok(1))), JobAction::InstallTopology));
    assert!(matches!(run.advance(JobEvent::Text(Ok(()))), JobAction::InstallTombstones));
    assert!(matches!(
        run.advance(JobEvent::Installed { matches: true, changed: true }),
        JobAction::ConfirmTombstones
    ));
    assert!(matches!(run.advance(JobEvent::Snapshot(Some(true))), JobAction::Finish));
    assert_eq!(run.phase(), JobPhase::Done);

    let mut cooldown = CompactionRetryCooldown::new();
    cooldown.record(9, 100, "earlier", 0, 0);
    let mut ledger = EngineCompactionCostState::new();
    let cost = ledger.start_job(5, 100);
    let retry = CompactionRetryJob::new(9, 100);
    assert!(run.settle(retry, &mut cooldown, cost, &mut ledger, 77, 1, 1).is_ok());
    assert!(!cooldown.should_defer(9, 1));
    assert_eq!(ledger.counts.jobs_published, 1);
    assert_eq!(ledger.counts.total_published_output_rows, 3);
    assert_eq!(ledger.counts.last_manifest_publication_nanos, 77);
    assert_eq!(ledger.last_outcome, "published");
}

#[test]
fn refused_job_is_recorded_with_its_reason() {
    let mut run = CompactionRun::new(inputs());
    run.advance(JobEvent::Outcome(Ok(())));
    let refused = compaction_abort("disk_reserve_exhausted", "full");
    assert!(matches!(run.advance(JobEvent::Outcome(Err(refused))), JobAction::Finish));
    let mut cooldown = CompactionRetryCooldown::new();
    let mut ledger = EngineCompactionCostState::new();
    let cost = ledger.start_job(5, 100);
    let error = run
        .settle(CompactionRetryJob::new(9, 100), &mut cooldown, cost, &mut ledger, 0, 10, 10)
        .expect_err("no disk");
    assert!(message_of(&error).contains("disk_reserve_exhausted"));
    assert_eq!(ledger.counts.jobs_invalidated, 1);
    assert_eq!(ledger.counts.total_generated_output_rows, 0);
    assert!(cooldown.should_defer(9, 11));
    assert_eq!(cooldown.snapshot(11).last_reason, "disk_reserve_exhausted");
}

#[test]
fn lost_publication_race_leaves_no_cooldown() {
    let (mut run, _) = merged_run();
    run.advance(JobEvent::Outcome(Ok(())));
    run.advance(JobEvent::Staged(Ok(vec![])));
    run.advance(JobEvent::Outcome(Ok(())));
    run.advance(JobEvent::Outcome(Ok(())));
    let lost = compaction_abort("physical_generation_stale", "moved");
    assert!(matches!(run.advance(JobEvent::Published(Err(lost))), JobAction::Finish));
    let mut cooldown = CompactionRetryCooldown::new();
    let mut ledger = EngineCompactionCostState::new();
    let cost = ledger.start_job(5, 100);
    let settled =
        run.settle(CompactionRetryJob::new(9, 100), &mut cooldown, cost, &mut ledger, 0, 1, 1);
    assert!(settled.is_err());
    assert!(!cooldown.should_defer(9, 1));
    assert_eq!(ledger.counts.jobs_invalidated, 1);
    assert_eq!(ledger.counts.jobs_failed, 0);
}

#[test]
fn write_failures_fail_the_job() {
    let (mut run, _) = merged_run();
    run.advance(JobEvent::Outcome(Ok(())));
    run.advance(JobEvent::Staged(Err("no space".to_string())));
    assert_eq!(run.phase(), JobPhase::Done);
    let mut cooldown = CompactionRetryCooldown::new();
    let mut ledger = EngineCompactionCostState::new();
    let cost = ledger.start_job(5, 100);
    let error = run
        .settle(CompactionRetryJob::new(9, 100), &mut cooldown, cost, &mut ledger, 0, 1, 1)
        .expect_err("nothing written");
    assert_eq!(message_of(&error), "failed to write compacted volume for 't': no space");
    assert_eq!(ledger.counts.jobs_failed, 1);
    assert_eq!(ledger.last_outcome, "output_write_failed");
}

#[test]
fn published_output_must_match_the_reserved_identities() {
    let (mut run, _) = merged_run();
    run.advance(JobEvent::Outcome(Ok(())));
    run.advance(JobEvent::Staged(Ok(vec![])));
    run.advance(JobEvent::Outcome(Ok(())));
    run.advance(JobEvent::Outcome(Ok(())));
    run.advance(JobEvent::Published(Ok(1)));
    let mut cooldown = CompactionRetryCooldown::new();
    let mut ledger = EngineCompactionCostState::new();
    let cost = ledger.start_job(5, 100);
    let error = run
        .settle(CompactionRetryJob::new(9, 0), &mut cooldown, cost, &mut ledger, 0, 1, 1)
        .expect_err("one too many");
    assert_eq!(
        message_of(&error),
        "published compaction output count differs from reserved runtime identities"
    );
    assert!(!cooldown.should_defer(9, 1));
}

#[test]
fn long_merge_stages_whole_chunks() {
    let ids: Vec<i64> = (0..70_000).collect();
    let mut run = CompactionRun::new(JobInputs {
        volumes: vec![volume(1, &ids, 0)],
        tombstones: deleted(&[]),
        input_rows: 70_000,
        ..inputs()
    });
    run.advance(JobEvent::Outcome(Ok(())));
    run.advance(JobEvent::Outcome(Ok(())));
    run.advance(JobEvent::Outcome(Ok(())));
    let mut action = run.advance(JobEvent::Text(Ok(())));
    let mut appended = 0;
    let mut staged = Vec::new();
    let mut reads = Vec::new();
    loop {
        action = match action {
            JobAction::Append { .. } => {
                appended += 1;
                run.advance(JobEvent::Text(Ok(())))
            }
            JobAction::StageRows => {
                staged.push(appended);
                run.advance(JobEvent::Staged(Ok(vec![])))
            }
            JobAction::CreateSpool => run.advance(JobEvent::Text(Ok(()))),
            JobAction::AccountRead { bytes } => {
                reads.push(bytes);
                run.advance(JobEvent::Outcome(Ok(())))
            }
            _ => break,
        };
    }
    assert_eq!(run.phase(), JobPhase::Live);
    assert_eq!(appended, 70_000);
    assert_eq!(staged, vec![65_536, 70_000]);
    assert_eq!(reads, vec![93, 100]);
}
