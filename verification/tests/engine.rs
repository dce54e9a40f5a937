//! Lifecycle, background worker, lookups, recovery and catalog binding.
use radixdb_engine::catalog::binder::bind_catalog_runtime;
use radixdb_engine::catalog::bootstrap::bootstrap_catalog_generation;
use radixdb_engine::catalog::constraints::bind_foreign_key_action;
use radixdb_engine::catalog::constraints::ordered_constraint_ids;
use radixdb_engine::catalog::foreign_keys::find_referencing_fks;
use radixdb_engine::catalog::foreign_keys::find_referencing_fks_for_txn;
use radixdb_engine::catalog::foreign_keys::FkReverseCache;
use radixdb_engine::catalog::foreign_keys::StagedSchema;
use radixdb_engine::catalog::install::install_recovered_catalog;
use radixdb_engine::catalog::install::CatalogEntry;
use radixdb_engine::catalog::install::RecoveredTable;
use radixdb_engine::catalog::objects::CatalogAction;
use radixdb_engine::catalog::objects::ColumnPayload;
use radixdb_engine::catalog::objects::ConstraintPayload;
use radixdb_engine::catalog::objects::Edge;
use radixdb_engine::catalog::objects::EdgeKind;
use radixdb_engine::catalog::objects::Generation;
use radixdb_engine::catalog::objects::IndexPayload;
use radixdb_engine::catalog::objects::Object;
use radixdb_engine::catalog::objects::Payload;
use radixdb_engine::catalog::objects::TablePayload;
use radixdb_engine::catalog::runtime::missing_catalog_runtime_binder;
use radixdb_engine::compaction::plan::SegmentLevel;
use radixdb_engine::engine::lifecycle::after_drain_pass;
use radixdb_engine::engine::lifecycle::check_transactions_ended;
use radixdb_engine::engine::lifecycle::engine_path;
use radixdb_engine::engine::lifecycle::is_in_memory;
use radixdb_engine::engine::lifecycle::path;
use radixdb_engine::engine::lifecycle::update_engine_config;
use radixdb_engine::engine::lifecycle::DrainStep;
use radixdb_engine::engine::lifecycle::EngineLifecycle;
use radixdb_engine::engine::lifecycle::DRAIN_ATTEMPTS;
use radixdb_engine::engine::lookups::begin_transaction_with_level;
use radixdb_engine::engine::lookups::count_visible_rows;
use radixdb_engine::engine::lookups::fetch_rows_by_ids;
use radixdb_engine::engine::lookups::get_or_create_segment_manager;
use radixdb_engine::engine::lookups::get_version_store;
use radixdb_engine::engine::lookups::index_missing;
use radixdb_engine::engine::lookups::missing_partial_index_predicate_binder;
use radixdb_engine::engine::truncate::record_truncate_table;
use radixdb_engine::engine::lookups::table_exists;
use radixdb_engine::engine::lookups::total_cleaned;
use radixdb_engine::engine::truncate::truncated_rows;
use radixdb_engine::engine::lookups::vacuum;
use radixdb_engine::engine::lookups::vacuum_scope;
use radixdb_engine::engine::lookups::CleanedTable;
use radixdb_engine::engine::lookups::volume_stats;
use radixdb_engine::engine::lookups::RowPresence;
use radixdb_engine::engine::lookups::TableVolumes;
use radixdb_engine::engine::truncate::TruncateRecord;
use radixdb_engine::engine::lookups::VolumeStat;
use radixdb_engine::engine::checkpoint::judge_fence;
use radixdb_engine::engine::checkpoint::checkpoint_reason;
use radixdb_engine::engine::checkpoint::force_checkpoint_gate;
use radixdb_engine::engine::worker::lock_checkpoint_mutex_cancellable;
use radixdb_engine::engine::checkpoint::replans_seal;
use radixdb_engine::engine::worker::request_page_cache_warmup;
use radixdb_engine::engine::worker::worker_panicked;
use radixdb_engine::engine::checkpoint::CheckpointFence;
use radixdb_engine::engine::worker::LockStep;
use radixdb_engine::engine::worker::LockTry;
use radixdb_engine::engine::worker::WarmupRequest;
use radixdb_engine::engine::worker::WorkerClock;
use radixdb_engine::error::Error;
use radixdb_engine::names::NameMap;
use radixdb_engine::publication::catalog::AccessMethod;
use radixdb_engine::publication::catalog::CatalogObject;
use radixdb_engine::publication::catalog::CatalogPayload;
use radixdb_engine::publication::catalog::TypeObject;
use radixdb_engine::recovery::artifacts::artifact_physical_schema;
use radixdb_engine::recovery::artifacts::install_recovered_artifacts;
use radixdb_engine::recovery::artifacts::recency_order;
use radixdb_engine::recovery::artifacts::recover_physical_mvcc_high_waters;
use radixdb_engine::recovery::artifacts::segment_registration;
use radixdb_engine::recovery::artifacts::sync_auto_increment_from_segments;
use radixdb_engine::recovery::artifacts::AdmittedSegment;
use radixdb_engine::recovery::artifacts::OpenedData;
use radixdb_engine::recovery::artifacts::PhysicalColumn;
use radixdb_engine::recovery::artifacts::RecoveredSegment;
use radixdb_engine::recovery::artifacts::SegmentKind;
use radixdb_engine::recovery::artifacts::SegmentTier;
use radixdb_engine::recovery::artifacts::runtime_table_ids;
use radixdb_engine::recovery::artifacts::RuntimeTable;
use radixdb_engine::recovery::artifacts::TableRecovery;
use radixdb_engine::recovery::defaults::populate_schema_defaults;
use radixdb_engine::recovery::defaults::try_parse_default_literal;
use radixdb_engine::recovery::defaults::ColumnDefault;
use radixdb_engine::recovery::defaults::DefaultLiteral;
use radixdb_engine::recovery::hnsw::common_coverage;
use radixdb_engine::recovery::hnsw::projected_columns;
use radixdb_engine::recovery::hnsw::seed_coverage;
use radixdb_engine::recovery::hnsw::select_cold_indexes;
use radixdb_engine::recovery::hnsw::HnswBackfill;
use radixdb_engine::recovery::hnsw::ProjectedRow;
use radixdb_engine::recovery::replay::data_outcome;
use radixdb_engine::recovery::replay::finish_replay;
use radixdb_engine::recovery::replay::check_wal_identities;
use radixdb_engine::recovery::replay::replay_entry;
use radixdb_engine::recovery::replay::replay_wal_record;
use radixdb_engine::recovery::replay::resolve_wal_table;
use radixdb_engine::recovery::replay::ColdTable;
use radixdb_engine::recovery::replay::ReplayAction;
use radixdb_engine::recovery::replay::ReplayCounters;
use radixdb_engine::recovery::replay::ReplayState;
use radixdb_engine::recovery::replay::WalEntry;
use radixdb_engine::recovery::replay::WalOperation;
use radixdb_engine::schema::DataType;
use radixdb_engine::schema::ForeignKeyAction;
use radixdb_engine::schema::ForeignKeyConstraint;
use radixdb_engine::schema::IndexInfo;
use radixdb_engine::schema::IndexType;
use radixdb_engine::schema::Schema;
use radixdb_engine::schema::SchemaConstraintKind;
use radixdb_engine::value::Datum;
use rustc_hash::FxHashMap;
use rustc_hash::FxHashSet;

fn said(error: &Error) -> String {
    match error {
        Error::Internal { message } => message.clone(),
        Error::InvalidArgument(message) => message.clone(),
        Error::NotSupported(message) => message.clone(),
        other => panic!("unexpected error: {other:?}"),
    }
}

fn segment(id: u128, max_transaction_id: u64) -> RecoveredSegment {
    RecoveredSegment {
        id,
        kind: SegmentKind::Rows,
        tier: SegmentTier::L0,
        min_transaction_id: 1,
        max_transaction_id,
        creation_generation: 1,
        has_index: false,
    }
}

fn bare_schema(name: &str) -> Schema {
    Schema {
        table_name: name.to_string(),
        table_name_lower: name.to_lowercase(),
        catalog_id: 1,
        columns: Vec::new(),
        foreign_keys: Vec::new(),
        table_checks: Vec::new(),
        constraints: Vec::new(),
        next_constraint_id: 1,
        next_check_ordinal: 1,
    }
}

fn refers(name: &str, parent: &str) -> Schema {
    let mut schema = bare_schema(name);
    schema.foreign_keys.push(ForeignKeyConstraint {
        column_index: 0,
        column_name: "p".to_string(),
        referenced_table: parent.to_string(),
        referenced_column: "id".to_string(),
        on_delete: ForeignKeyAction::NoAction,
        on_update: ForeignKeyAction::NoAction,
    });
    schema
}

#[test]
fn engine_opens_once() {
    let mut life = EngineLifecycle::new();
    assert_eq!(life.state.label(), "closed");
    assert!(matches!(life.open_engine(), Ok(true)));
    assert_eq!(life.state.label(), "opening");
    life.opened();
    assert!(life.is_open());
    assert_eq!(life.state.label(), "ready");
    assert!(matches!(life.open_engine(), Ok(false)));
}

#[test]
fn failed_close_may_be_tried_again() {
    let mut life = EngineLifecycle::new();
    life.open_engine().expect("fresh");
    life.opened();
    assert!(matches!(life.close_engine(), Ok(true)));
    assert!(life.owes_final_checkpoint(true, true));
    let error = life.record_close_failure(Error::internal("busy"));
    assert_eq!(said(&error), "busy");
    assert_eq!(life.state.label(), "close_failed");
    assert!(matches!(life.close_engine(), Ok(true)));
    life.final_checkpoint_done();
    assert!(!life.owes_final_checkpoint(true, true));
    life.closed();
    assert_eq!(life.state.label(), "closed");
    assert!(!life.is_open());
}

#[test]
fn failed_startup_is_remembered() {
    let mut life = EngineLifecycle::new();
    life.open_engine().expect("fresh");
    let error = life.fail_startup(Error::internal("torn"));
    assert_eq!(said(&error), "torn");
    assert_eq!(life.state.label(), "failed");
    assert!(!life.is_open());
}

#[test]
fn hot_rows_are_drained_in_a_few_passes() {
    assert_eq!(after_drain_pass(0, false), DrainStep::Drained);
    assert_eq!(after_drain_pass(0, true), DrainStep::TryAgain);
    assert_eq!(after_drain_pass(DRAIN_ATTEMPTS - 1, true), DrainStep::GiveUp);
    assert!(check_transactions_ended(0, "5s").is_ok());
    let error = check_transactions_ended(2, "5s").expect_err("still running");
    assert_eq!(
        said(&error),
        "close_engine timed out with 2 active transaction(s) after 5s; resources remain owned and shutdown may be retried"
    );
}

#[test]
fn path_and_workers_are_fixed() {
    assert!(update_engine_config("/a", "/a", 2, 2).is_ok());
    let error = update_engine_config("/a", "/b", 2, 2).expect_err("another path");
    assert_eq!(said(&error), "cannot change database path after opening");
    assert!(update_engine_config("/a", "/a", 2, 3).is_err());
    assert!(is_in_memory("memory://"));
    assert!(!is_in_memory("/data"));
}

#[test]
fn worker_retires_at_once_and_cleans_later() {
    let mut clock = WorkerClock::new();
    let round = clock.tick(true, 250);
    assert!(round.retire && !round.clean);
    clock.retirement_tried(true);
    let round = clock.tick(true, 250);
    assert!(!round.retire && !round.clean);
    let round = clock.tick(true, 250);
    assert!(round.clean);
    assert_eq!(clock.since_cleanup_millis, 0);
    assert!(!clock.tick(false, 1).clean);
}

#[test]
fn checkpoint_advances_only_without_hot_rows() {
    assert!(matches!(judge_fence(true, true, false), Ok(CheckpointFence::Advance)));
    assert!(matches!(judge_fence(true, false, false), Ok(CheckpointFence::Defer)));
    assert!(judge_fence(true, false, true).is_err());
    assert_eq!(
        said(&judge_fence(true, false, true).expect_err("rows were left")),
        "forced checkpoint left committed hot rows unsealed"
    );
    assert_eq!(
        said(&judge_fence(false, true, false).expect_err("no fence")),
        "checkpoint timed out acquiring the commit fence"
    );
    assert_eq!(checkpoint_reason(true), "forced_checkpoint");
    assert_eq!(checkpoint_reason(false), "scheduled_checkpoint");
    assert!(force_checkpoint_gate(true).is_ok());
    assert_eq!(
        said(&force_checkpoint_gate(false).expect_err("in memory")),
        "CHECKPOINT requires a persistent database"
    );
}

#[test]
fn stale_seals_are_replanned_twice() {
    assert!(replans_seal(0, true, true, false));
    assert!(replans_seal(1, true, true, false));
    assert!(!replans_seal(2, true, true, false));
    assert!(!replans_seal(0, false, true, false));
    assert!(!replans_seal(0, true, false, false));
    assert!(!replans_seal(0, true, true, true));
}

#[test]
fn checkpoint_lock_can_be_cancelled() {
    assert!(matches!(
        lock_checkpoint_mutex_cancellable(false, &LockTry::Taken),
        Ok(LockStep::Proceed)
    ));
    assert!(matches!(lock_checkpoint_mutex_cancellable(false, &LockTry::Busy), Ok(LockStep::Wait)));
    assert!(matches!(
        lock_checkpoint_mutex_cancellable(true, &LockTry::Busy),
        Err(Error::QueryCancelled)
    ));
    let poisoned = LockTry::Poisoned { text: "x".to_string() };
    assert_eq!(
        said(&lock_checkpoint_mutex_cancellable(false, &poisoned).expect_err("poisoned")),
        "checkpoint mutex is poisoned: x"
    );
    match request_page_cache_warmup(None) {
        WarmupRequest::Reject { reason } => {
            assert_eq!(reason, "CONTROL-selected physical generation is unavailable");
        }
        WarmupRequest::Warm => panic!("nothing to warm"),
    }
    assert!(matches!(request_page_cache_warmup(Some(Ok(()))), WarmupRequest::Warm));
    assert_eq!(said(&worker_panicked(Some("boom"))), "cleanup worker panicked: boom");
    assert_eq!(said(&worker_panicked(None)), "cleanup worker panicked: unknown panic payload");
}

#[test]
fn lookups_need_an_open_engine() {
    let mut stores: NameMap<u32> = NameMap::new();
    stores.insert("t".to_string(), 9);
    assert!(matches!(table_exists(true, &stores, "T"), Ok(true)));
    assert!(matches!(table_exists(true, &stores, "u"), Ok(false)));
    assert!(matches!(table_exists(false, &stores, "t"), Err(Error::EngineNotOpen)));
    assert_eq!(get_version_store(true, false, &stores, "T").expect("published"), &9);
    assert!(get_version_store(false, true, &stores, "t").is_ok());
    assert!(matches!(
        get_version_store(false, false, &stores, "t"),
        Err(Error::EngineNotOpen)
    ));
    assert!(matches!(
        get_version_store(true, false, &stores, "U"),
        Err(Error::TableNotFound(name)) if name == "u"
    ));
    assert!(matches!(begin_transaction_with_level(true, Some(4)), Ok(4)));
    assert!(begin_transaction_with_level(true, None).is_err());
    assert!(matches!(index_missing("t", "i"), Error::IndexNotFound(name) if name == "t.i"));
    get_or_create_segment_manager(&mut stores, "t", 1);
    get_or_create_segment_manager(&mut stores, "u", 1);
    assert_eq!((stores.get("t"), stores.get("u")), (Some(&9), Some(&1)));
    assert_eq!(
        said(&missing_partial_index_predicate_binder("a > 1")),
        "cannot recover partial index predicate 'a > 1' without a configured composition binder"
    );
}

#[test]
fn rows_are_fetched_and_counted_once() {
    assert_eq!(fetch_rows_by_ids(&vec![1, 2, 3], &vec![2], true), vec![1, 3]);
    assert!(fetch_rows_by_ids(&vec![1, 2, 3], &vec![2], false).is_empty());
    let rows = vec![
        RowPresence { committed_hot: true, cold: true },
        RowPresence { committed_hot: false, cold: true },
        RowPresence { committed_hot: false, cold: false },
    ];
    assert_eq!(count_visible_rows(1, &rows, true), 2);
    assert_eq!(count_visible_rows(1, &rows, false), 1);
    assert_eq!(total_cleaned(true, &vec![1, 2, 3]), 6);
    assert_eq!(total_cleaned(false, &vec![1, 2, 3]), 0);
    assert_eq!(truncated_rows(i32::MAX, 5), i32::MAX);
}

#[test]
fn truncation_is_recorded_under_the_stable_identity() {
    let known = Some(Ok(8));
    assert!(matches!(
        record_truncate_table("t", "T", &known, false, true),
        Ok(TruncateRecord::Record { table_id: 8 })
    ));
    assert!(matches!(
        record_truncate_table("t", "T", &known, true, true),
        Ok(TruncateRecord::Nothing)
    ));
    assert!(record_truncate_table("t", "T", &None, false, true).is_err());
    let broken = Some(Err("zero".to_string()));
    assert_eq!(
        said(&record_truncate_table("t", "T", &broken, false, true).expect_err("no identity")),
        "table 'T' has invalid stable WAL identity: zero"
    );
}

#[test]
fn vacuum_names_a_table_or_all() {
    let mut stores: NameMap<u32> = NameMap::new();
    stores.insert("t".to_string(), 0);
    stores.insert("u".to_string(), 0);
    assert!(matches!(vacuum_scope(true, &stores, None), Ok(true)));
    assert!(matches!(vacuum_scope(true, &stores, Some("t")), Ok(false)));
    let cleaned = vec![
        CleanedTable { rows: 3, versions: 5 },
        CleanedTable { rows: 4, versions: 1 },
    ];
    let all = vacuum(true, &stores, None, 2, &cleaned).expect("open");
    assert_eq!((all.rows, all.versions, all.transactions), (7, 6, 2));
    let one = vacuum(true, &stores, Some("t"), 0, &vec![CleanedTable { rows: 3, versions: 5 }])
        .expect("known");
    assert_eq!((one.rows, one.versions, one.transactions), (3, 5, 0));
    let unknown = vacuum(true, &stores, Some("T"), 2, &vec![]);
    assert!(matches!(unknown, Err(Error::TableNotFound(_))));
    assert!(matches!(vacuum(false, &stores, None, 0, &vec![]), Err(Error::EngineNotOpen)));
}

#[test]
fn volumes_are_listed_by_table_name() {
    let volume = |segment_id: u64| VolumeStat {
        segment_id,
        tier: if segment_id == 4 { "L0" } else { "L1" },
        row_count: 1,
        resident_bytes: 0,
        metadata_bytes: 0,
        row_id_bytes: 0,
        exact_index_bytes: 0,
        ordered_index_bytes: 0,
        descriptor_bytes: 0,
        column_payload_bytes: 0,
        idle_cycles: 0,
    };
    let tables = vec![
        TableVolumes { name: "b".to_string(), tombstones: 1, volumes: vec![volume(4)] },
        TableVolumes { name: "a".to_string(), tombstones: 2, volumes: vec![volume(9)] },
    ];
    let lines = volume_stats(&tables);
    let seen: Vec<(usize, u64, &str, usize)> = lines
        .iter()
        .map(|l| (l.table, l.volume.segment_id, l.volume.tier, l.tombstones))
        .collect();
    assert_eq!(seen, vec![(1, 9, "L1", 2), (0, 4, "L0", 1)]);
}

#[test]
fn recovered_segments_are_numbered_by_recency() {
    let segments = vec![segment(3, 30), segment(1, 10), segment(2, 20)];
    assert_eq!(recency_order(&segments), vec![1, 2, 0]);
    let mut table = TableRecovery::new("t", 10, 3).expect("above its manifest");
    let opened = OpenedData { kind: SegmentKind::Rows, column_count: 2, row_ids: vec![1] };
    assert!(matches!(
        table.take_segment(segment(1, 10), &opened),
        Ok(AdmittedSegment::Volume { runtime_id: 7, level: SegmentLevel::L0 })
    ));
    let mut deletes = segment(2, 20);
    deletes.kind = SegmentKind::Tombstones;
    let dead = OpenedData { kind: SegmentKind::Tombstones, column_count: 0, row_ids: vec![5] };
    assert!(matches!(
        table.take_segment(deletes, &dead),
        Ok(AdmittedSegment::Deleted)
    ));
    let error = table.take_segment(deletes, &opened).expect_err("another kind");
    assert_eq!(said(&error), "table 't' DATA kind differs from its segment descriptor");
    assert!(TableRecovery::new("t", 3, 3).is_err());
    let (tombstones, next) = table.finish();
    assert_eq!(tombstones.len(), 1);
    assert!(tombstones.contains_key(&5));
    assert_eq!(next, 10);
}

#[test]
fn manifests_find_the_tables_that_own_them() {
    let table = |name: &str, id: Result<u128, String>| RuntimeTable {
        name: name.to_string(),
        name_lower: name.to_lowercase(),
        catalog_id: id,
    };
    let tables = vec![table("A", Ok(4)), table("B", Ok(9))];
    let ids = runtime_table_ids(&tables).expect("valid");
    assert_eq!(ids, vec![4, 9]);
    let segments = vec![segment(3, 30), segment(1, 10)];
    let started = install_recovered_artifacts(&tables, &ids, 9, 5, &segments)
        .expect("above its manifest")
        .expect("segments to read");
    assert_eq!((started.table, started.order), (1, vec![1, 0]));
    let dropped = install_recovered_artifacts(&tables, &ids, 7, 0, &segments).expect("history");
    assert!(dropped.is_none());
    let empty = install_recovered_artifacts(&tables, &ids, 4, 0, &Vec::new()).expect("no rows");
    assert!(empty.is_none());
    let error = install_recovered_artifacts(&tables, &ids, 9, 2, &segments).expect_err("too low");
    assert_eq!(said(&error), "table 'b' next segment sequence cannot own its manifest");
    let error = runtime_table_ids(&vec![table("A", Err("zero".to_string()))]).expect_err("none");
    assert_eq!(said(&error), "runtime schema 'A' has invalid catalog identity: zero");
}

#[test]
fn repeated_tombstones_are_refused() {
    let mut table = TableRecovery::new("t", 10, 2).expect("above its manifest");
    let mut deletes = segment(2, 20);
    deletes.kind = SegmentKind::Tombstones;
    let dead = OpenedData { kind: SegmentKind::Tombstones, column_count: 0, row_ids: vec![5] };
    table.take_segment(deletes, &dead).expect("first");
    let error = table.take_segment(deletes, &dead).expect_err("the same row twice");
    assert_eq!(said(&error), "table 't' has duplicate durable tombstone row ID 5");
    deletes.has_index = true;
    let error = table.take_segment(deletes, &dead).expect_err("an index");
    assert_eq!(said(&error), "table 't' tombstone segment owns columns or an INDEX artifact");
}

#[test]
fn frontiers_cover_every_segment() {
    let mut deletes = segment(2, 90);
    deletes.kind = SegmentKind::Tombstones;
    let waters = recover_physical_mvcc_high_waters(15, &vec![segment(1, 40), deletes])
        .expect("in the domain");
    assert_eq!((waters.transaction, waters.visibility), (40, 90));
    assert!(recover_physical_mvcc_high_waters(u64::MAX, &Vec::new()).is_err());
    assert_eq!(sync_auto_increment_from_segments(&vec![Some(4), None, Some(9)]), Some(9));
    assert_eq!(sync_auto_increment_from_segments(&vec![None]), None);
    let meta = segment_registration("t", &vec![3, 8], None, 5, 6, 7);
    assert_eq!(meta.file_path, "t/segment_0000000000000005.data");
    assert_eq!((meta.min_row_id, meta.max_row_id, meta.row_count), (3, 8, 2));
    let meta = segment_registration("t", &vec![], Some("p".to_string()), 5, 6, 7);
    assert_eq!(meta.file_path, "p");
}

#[test]
fn artifact_columns_are_resolved_by_identity() {
    let catalog_column = |id: u128, table: u128, type_object: TypeObject| CatalogObject {
        id,
        parent_id: Some(table),
        name: "a".to_string(),
        payload: CatalogPayload::Column { data_type: DataType::Text, nullable: true, type_object },
        depends_on: Vec::new(),
    };
    let external = |id: Option<u128>| TypeObject::External(id);
    let objects = vec![
        catalog_column(15, 1, TypeObject::BuiltIn),
        catalog_column(16, 2, TypeObject::BuiltIn),
        catalog_column(17, 1, external(Some(40))),
        catalog_column(18, 1, external(None)),
        catalog_column(19, 1, external(Some(41))),
        CatalogObject {
            id: 40,
            parent_id: None,
            name: "point".to_string(),
            payload: CatalogPayload::Other,
            depends_on: Vec::new(),
        },
    ];
    let column = |column_id: u128, type_object: TypeObject| PhysicalColumn {
        column_id,
        id_text: "0f".to_string(),
        data_type: DataType::Text,
        nullable: true,
        type_object,
    };
    let found = artifact_physical_schema(
        &objects,
        1,
        &vec![
            column(15, TypeObject::BuiltIn),
            column(99, TypeObject::BuiltIn),
            column(17, external(Some(40))),
        ],
    )
    .expect("all resolve");
    assert_eq!(found[0].name, "a");
    assert_eq!((found[1].ordinal, found[1].name.as_str()), (1, "__dropped_0f"));
    assert_eq!(found[2].external.as_deref(), Some("point"));
    let refused = |wrong: PhysicalColumn| {
        said(&artifact_physical_schema(&objects, 1, &vec![wrong]).expect_err("refused"))
    };
    assert_eq!(
        refused(column(16, TypeObject::BuiltIn)),
        "DATA artifact column identity 0f belongs to another table"
    );
    assert_eq!(
        refused(column(40, TypeObject::BuiltIn)),
        "DATA artifact column identity 0f resolves to a non-column catalog object"
    );
    assert_eq!(
        refused(column(15, external(Some(40)))),
        "DATA artifact column identity 0f has a type incompatible with the selected catalog"
    );
    assert_eq!(refused(column(18, external(None))), "external DATA type lost its object ID");
    assert_eq!(refused(column(19, external(Some(41)))), "external DATA type object disappeared");
}

#[test]
fn default_literals_are_parsed() {
    assert!(matches!(
        try_parse_default_literal(" NULL ", DataType::Text),
        Some(DefaultLiteral::Null { data_type: DataType::Text })
    ));
    assert!(matches!(
        try_parse_default_literal("true", DataType::Text),
        Some(DefaultLiteral::Boolean(true))
    ));
    assert!(matches!(
        try_parse_default_literal("-12", DataType::Float),
        Some(DefaultLiteral::Integer { value: -12, data_type: DataType::Float })
    ));
    assert!(matches!(
        try_parse_default_literal("'it''s'", DataType::Timestamp),
        Some(DefaultLiteral::Text { text, data_type: DataType::Timestamp }) if text == "it's"
    ));
    assert!(try_parse_default_literal("now()", DataType::Text).is_none());
    assert!(try_parse_default_literal("'a' || NOW() || 'b'", DataType::Text).is_none());
    assert!(try_parse_default_literal("'a''", DataType::Text).is_none());
    assert!(matches!(
        try_parse_default_literal("''", DataType::Text),
        Some(DefaultLiteral::Text { text, .. }) if text.is_empty()
    ));
    assert!(try_parse_default_literal("99999999999999999999", DataType::Integer).is_none());
    let mut columns = vec![
        ColumnDefault { data_type: DataType::Integer, expr: Some("5".to_string()), value: None },
        ColumnDefault { data_type: DataType::Integer, expr: Some("f(x)".to_string()), value: None },
        ColumnDefault { data_type: DataType::Integer, expr: None, value: None },
    ];
    populate_schema_defaults(&mut columns);
    assert!(matches!(columns[0].value, Some(DefaultLiteral::Integer { value: 5, .. })));
    assert!(columns[1].value.is_none() && columns[2].value.is_none());
}

fn ann(name: &str, index_type: IndexType) -> IndexInfo {
    IndexInfo {
        name: name.to_string(),
        index_type,
        is_unique: false,
        column_ids: vec![1],
        predicate_columns: None,
    }
}

#[test]
fn backfill_adds_each_cold_row_once() {
    let indexes = vec![ann("a", IndexType::Hnsw), ann("b", IndexType::BTree)];
    assert_eq!(select_cold_indexes(&indexes), vec![0]);
    assert_eq!(projected_columns(&vec![vec![2, 0], vec![2]]), vec![0, 2]);
    let covered = seed_coverage(&vec![1], &vec![2]);
    assert!(covered.contains(&1) && covered.contains(&2));
    let both = common_coverage(&vec![1, 9], &vec![covered.clone(), seed_coverage(&vec![1], &vec![])]);
    assert!(both.contains(&1) && !both.contains(&9) && !both.contains(&2));

    let mut fill = HnswBackfill::new(vec![vec![0]], vec![covered]);
    let row = |row_id: i64| ProjectedRow {
        row_id,
        values: vec![Datum { key: 70, is_null: false, text: String::new(), integer: None }],
    };
    let mut dead = FxHashSet::default();
    dead.insert(4);
    fill.scan_volume(&vec![row(1), row(3), row(4)], &dead, &FxHashSet::default());
    fill.scan_volume(&vec![row(3), row(5)], &dead, &FxHashSet::default());
    assert!(fill.take_batch(0, false).is_none());
    let batch = fill.take_batch(0, true).expect("two rows");
    let ids: Vec<i64> = batch.iter().map(|e| e.row_id).collect();
    assert_eq!(ids, vec![3, 5]);
    assert_eq!(batch[0].keys, vec![70]);
    assert!(fill.take_batch(0, true).is_none());
}

fn wal(operation: WalOperation, txn_id: i64, row_id: i64, lsn: u64) -> WalEntry {
    WalEntry { lsn, txn_id, row_id, operation, payload: Ok(txn_id) }
}

#[test]
fn replay_skips_sealed_rows_and_applies_rewritten_ones() {
    let mut cold = NameMap::new();
    let mut volume_rows = FxHashSet::default();
    volume_rows.insert(5);
    cold.insert(
        "t".to_string(),
        ColdTable { volume_rows, tombstones: FxHashMap::default(), pending: Vec::new() },
    );
    let mut state = ReplayState { cold, touched: FxHashMap::default() };
    let mut counters = ReplayCounters { applied: 0, irrelevant: 0 };
    let t = Some("t".to_string());
    let sealed = replay_entry(&mut state, &mut counters, &wal(WalOperation::Insert, 1, 5, 10), &t);
    assert!(matches!(sealed, Ok(ReplayAction::SkipSealed)));
    let fresh = replay_entry(&mut state, &mut counters, &wal(WalOperation::Insert, 1, 6, 11), &t);
    assert!(matches!(fresh, Ok(ReplayAction::ApplyVersion)));
    replay_entry(&mut state, &mut counters, &wal(WalOperation::Delete, 1, 5, 12), &t)
        .expect("a delete");
    let rewritten = replay_entry(&mut state, &mut counters, &wal(WalOperation::Insert, 1, 5, 13), &t);
    assert!(matches!(rewritten, Ok(ReplayAction::ApplyVersion)));
    assert!(finish_replay(&state).is_err());
    let commit = replay_entry(&mut state, &mut counters, &wal(WalOperation::Commit, 1, 0, 14), &None);
    assert!(matches!(commit, Ok(ReplayAction::Commit { sequence: 14 })));
    assert!(finish_replay(&state).is_ok());
    assert_eq!(state.cold.get("t").expect("there").tombstones.get(&5), Some(&14));

    let dead = replay_entry(&mut state, &mut counters, &wal(WalOperation::Insert, 2, 9, 15), &None);
    assert!(matches!(dead, Ok(ReplayAction::Ignore)));
    assert_eq!((counters.applied, counters.irrelevant), (5, 1));
    let outcome = data_outcome(20, 15, 1, 3, &counters);
    assert_eq!((outcome.last_lsn, outcome.applied_entries, outcome.skipped_entries), (20, 5, 4));
}

#[test]
fn log_records_find_their_table_by_identity() {
    let table = |name: &str, id: Result<u128, String>| RuntimeTable {
        name: name.to_string(),
        name_lower: name.to_lowercase(),
        catalog_id: id,
    };
    let tables = vec![table("A", Ok(1)), table("B", Ok(2))];
    assert!(check_wal_identities(&tables).is_ok());
    assert_eq!(resolve_wal_table(&tables, Some(2)), Some("b".to_string()));
    assert_eq!(resolve_wal_table(&tables, Some(9)), None);
    assert_eq!(resolve_wal_table(&tables, None), None);
    let broken = vec![table("A", Ok(1)), table("B", Err("zero".to_string()))];
    assert_eq!(
        said(&check_wal_identities(&broken).expect_err("no identity")),
        "runtime table 'B' has invalid WAL identity: zero"
    );

    let mut state = ReplayState { cold: NameMap::new(), touched: FxHashMap::default() };
    let mut counters = ReplayCounters { applied: 0, irrelevant: 0 };
    let insert = wal(WalOperation::Insert, 1, 6, 11);
    let owned = replay_wal_record(&mut state, &mut counters, &insert, Some(2), &tables);
    assert!(matches!(owned, Ok(ReplayAction::ApplyVersion)));
    assert!(state.cold.get("b").is_some() && state.cold.get("a").is_none());
    let dead = replay_wal_record(&mut state, &mut counters, &insert, Some(9), &tables);
    assert!(matches!(dead, Ok(ReplayAction::Ignore)));
    assert_eq!((counters.applied, counters.irrelevant), (1, 1));
}

fn cold_table(row_id: i64) -> ColdTable {
    let mut volume_rows = FxHashSet::default();
    volume_rows.insert(row_id);
    ColdTable { volume_rows, tombstones: FxHashMap::default(), pending: Vec::new() }
}

#[test]
fn replayed_deletes_wait_for_their_marker() {
    let names = ["a", "b", "c", "d", "e", "f"];
    let mut cold = NameMap::new();
    for name in names {
        cold.insert(name.to_string(), cold_table(5));
    }
    let mut state = ReplayState { cold, touched: FxHashMap::default() };
    let mut counters = ReplayCounters { applied: 0, irrelevant: 0 };
    for name in names {
        let owner = Some(name.to_string());
        let delete = wal(WalOperation::Delete, 1, 5, 10);
        replay_entry(&mut state, &mut counters, &delete, &owner).expect("a delete");
        replay_entry(&mut state, &mut counters, &delete, &owner).expect("a delete");
        assert!(state.cold.get(name).expect("there").tombstones.is_empty());
    }
    assert_eq!(state.touched.get(&1).expect("touched").len(), 6);
    let delete = wal(WalOperation::Delete, 2, 5, 11);
    replay_entry(&mut state, &mut counters, &delete, &Some("a".to_string())).expect("a delete");
    let rollback = wal(WalOperation::Rollback, 2, 0, 12);
    let abort = replay_entry(&mut state, &mut counters, &rollback, &None);
    assert!(matches!(abort, Ok(ReplayAction::Abort)));
    assert!(state.cold.get("a").expect("there").tombstones.is_empty());
    assert_eq!(state.cold.get("a").expect("there").pending, vec![(1, 5), (1, 5)]);
    let commit = wal(WalOperation::Commit, 1, 0, 13);
    replay_entry(&mut state, &mut counters, &commit, &None).expect("a commit");
    for name in names {
        let table = state.cold.get(name).expect("there");
        assert_eq!(table.tombstones.get(&5), Some(&13));
        assert!(table.pending.is_empty());
    }
    assert!(finish_replay(&state).is_ok());
}

#[test]
fn replay_refuses_foreign_payloads() {
    let mut state = ReplayState { cold: NameMap::new(), touched: FxHashMap::default() };
    let mut counters = ReplayCounters { applied: 0, irrelevant: 0 };
    let t = Some("t".to_string());
    let mut entry = wal(WalOperation::Insert, 1, 5, 10);
    entry.payload = Ok(2);
    let error = replay_entry(&mut state, &mut counters, &entry, &t).expect_err("another owner");
    assert!(said(&error).starts_with("WAL transaction identity mismatch at LSN 10"));
    entry.payload = Err("short".to_string());
    let error = replay_entry(&mut state, &mut counters, &entry, &t).expect_err("torn");
    assert_eq!(said(&error), "failed to decode Insert WAL entry at LSN 10: short");
    let late = wal(WalOperation::Commit, 1, 0, u64::MAX);
    let error = replay_entry(&mut state, &mut counters, &late, &None).expect_err("too late");
    assert_eq!(
        said(&error),
        "WAL commit LSN 18446744073709551615 exceeds the MVCC sequence domain"
    );
}

#[test]
fn referencing_keys_are_found_in_any_overlay() {
    let mut schemas = NameMap::new();
    schemas.insert("child".to_string(), refers("child", "parent"));
    schemas.insert("parent".to_string(), bare_schema("parent"));
    let mut cache = FkReverseCache::new();
    let found = find_referencing_fks(&mut cache, 1, &schemas, "parent");
    assert_eq!(found.len(), 1);
    assert_eq!(found[0].table, "child");
    assert!(find_referencing_fks(&mut cache, 1, &schemas, "child").is_empty());
    let untouched = vec![StagedSchema { name: "child".to_string(), schema: None }];
    let same = find_referencing_fks_for_txn(&schemas, &untouched, &NameMap::new(), 1, "PARENT");
    assert_eq!(same.len(), 1);
    let stripped = vec![StagedSchema {
        name: "child".to_string(),
        schema: Some(bare_schema("child")),
    }];
    let left = find_referencing_fks_for_txn(&schemas, &stripped, &NameMap::new(), 1, "parent");
    assert!(left.is_empty());
    let staged = vec![StagedSchema {
        name: "other".to_string(),
        schema: Some(refers("other", "Parent")),
    }];
    let more = find_referencing_fks_for_txn(&schemas, &staged, &NameMap::new(), 1, "parent");
    assert_eq!(more.len(), 2);
}

#[test]
fn recovered_catalog_is_checked_table_by_table() {
    let table = |name: &str, entry: Option<CatalogEntry>| RecoveredTable {
        name: name.to_string(),
        name_lower: name.to_lowercase(),
        schema_check: Ok(()),
        table_id: Ok(4),
        entry,
        index_build: Ok(()),
    };
    let listed = |name: &str| Some(CatalogEntry { is_table: true, name: name.to_string() });
    let ids = install_recovered_catalog(&vec![table("t", listed("t"))], &Vec::new());
    assert_eq!(ids.expect("consistent"), vec![4]);
    let error = install_recovered_catalog(&vec![table("t", None)], &Vec::new())
        .expect_err("not listed");
    assert_eq!(said(&error), "runtime table 't' is absent from recovered catalog");
    let views = vec!["v".to_string(), "v".to_string()];
    let error = install_recovered_catalog(&Vec::new(), &views).expect_err("two views");
    assert_eq!(said(&error), "recovered catalog binds duplicate runtime views");
    assert!(missing_catalog_runtime_binder(false, false).is_ok());
    assert!(missing_catalog_runtime_binder(true, false).is_err());
}

fn object(id: u128, name: &str, payload: Payload) -> Object {
    Object { id, display: name.to_string(), normalized: name.to_lowercase(), payload }
}

fn plain_column(id: u128, name: &str, ordinal: u32) -> Object {
    object(
        id,
        name,
        Payload::Column(ColumnPayload {
            ordinal,
            data_type: DataType::Integer,
            parameter_1: 0,
            parameter_2: 0,
            nullable: false,
            auto_increment: false,
            default_sql: None,
            is_generated: false,
        }),
    )
}

fn contains(source: u128, target: u128, ordinal: u32) -> Edge {
    Edge { source, target, kind: EdgeKind::Contains, ordinal }
}

fn shop() -> Generation {
    Generation {
        objects: vec![
            object(
                1,
                "Orders",
                Payload::Table(TablePayload {
                    column_ids: vec![11, 12],
                    index_ids: vec![21],
                    constraint_ids: vec![31, 32, 33],
                    primary_key_constraint_id: Some(31),
                }),
            ),
            plain_column(11, "Id", 0),
            plain_column(12, "Amount", 1),
            object(
                21,
                "by_amount",
                Payload::Index(IndexPayload {
                    access_method: AccessMethod::Btree,
                    unique: true,
                    key_column_ids: vec![12],
                    has_includes: false,
                    has_expression: false,
                    predicate_sql: None,
                    hnsw: None,
                }),
            ),
            object(
                31,
                "pk",
                Payload::Constraint(ConstraintPayload::PrimaryKey { column_ids: vec![11] }),
            ),
            object(
                32,
                "positive",
                Payload::Constraint(ConstraintPayload::Check {
                    column_id: Some(12),
                    sql: "amount > 0".to_string(),
                }),
            ),
            object(
                33,
                "uq",
                Payload::Constraint(ConstraintPayload::Unique { column_ids: vec![12] }),
            ),
            object(
                41,
                "Recent",
                Payload::View { dependency_ids: vec![1], canonical_sql: "SELECT 1".to_string() },
            ),
        ],
        edges: vec![
            contains(1, 33, 9),
            contains(1, 31, 7),
            contains(1, 32, 8),
            Edge { source: 21, target: 33, kind: EdgeKind::DependsOn, ordinal: 0 },
        ],
    }
}

#[test]
fn catalog_generation_is_bound() {
    let (tables, views) = bind_catalog_runtime(&shop()).expect("consistent").into_parts();
    assert_eq!(tables.len(), 1);
    let schema = &tables[0].schema;
    assert_eq!(schema.table_name_lower, "orders");
    assert!(schema.columns[0].primary_key && !schema.columns[1].primary_key);
    assert_eq!(schema.columns[1].check_expr.as_deref(), Some("amount > 0"));
    let numbered: Vec<(u64, &str)> =
        schema.constraints.iter().map(|c| (c.id, c.name.as_str())).collect();
    assert_eq!(numbered, vec![(1, "pk"), (2, "positive"), (3, "uq")]);
    assert_eq!((schema.next_constraint_id, schema.next_check_ordinal), (4, 2));
    match &schema.constraints[2].kind {
        SchemaConstraintKind::Unique { columns, index_name } => {
            assert_eq!(columns, &vec!["Amount".to_string()]);
            assert_eq!(index_name, "by_amount");
        }
        other => panic!("unexpected kind: {other:?}"),
    }
    assert_eq!(tables[0].indexes[0].column_ids, vec![1]);
    assert_eq!(tables[0].indexes[0].index_type, IndexType::BTree);
    assert_eq!(views[0].dependencies, vec!["orders".to_string()]);
}

#[test]
fn broken_generations_are_refused() {
    let mut g = shop();
    g.edges.remove(1);
    assert_eq!(
        said(&bind_catalog_runtime(&g).expect_err("an edge is missing")),
        "table constraint list differs from containment graph"
    );
    let mut g = shop();
    g.edges.pop();
    assert_eq!(
        said(&bind_catalog_runtime(&g).expect_err("no index")),
        "UNIQUE constraint has no owning index"
    );
    let mut g = shop();
    g.objects[2] = plain_column(12, "Amount", 5);
    assert_eq!(
        said(&bind_catalog_runtime(&g).expect_err("a gap")),
        "catalog column has a non-canonical ordinal"
    );
    let mut g = shop();
    let twin = shop().objects.remove(0);
    g.objects.push(Object { id: 2, payload: Payload::Table(TablePayload {
        column_ids: vec![], index_ids: vec![], constraint_ids: vec![], primary_key_constraint_id: None,
    }), ..twin });
    assert_eq!(
        said(&bind_catalog_runtime(&g).expect_err("two tables of one name")),
        "catalog runtime contains duplicate table or view names"
    );
    assert_eq!(ordered_constraint_ids(&shop(), 1, &vec![33, 31]).expect("two"), vec![31, 33]);
    assert!(bind_foreign_key_action(CatalogAction::SetDefault).is_err());
    assert!(matches!(
        bind_foreign_key_action(CatalogAction::Cascade),
        Ok(ForeignKeyAction::Cascade)
    ));
}

#[test]
fn new_database_has_an_empty_catalog() {
    let made = bootstrap_catalog_generation(5, 6, 7, u128::MAX);
    assert_eq!((made.meta.database_id, made.meta.catalog_id), (6, 7));
    assert_eq!((made.meta.catalog_generation, made.snapshot_lsn), (1, 0));
    assert_eq!(made.created_unix_ns, u64::MAX);
    assert_eq!(made.generation.objects[0].normalized, "public");
    assert!(made.generation.edges.is_empty());
    let (tables, views) = bind_catalog_runtime(&made.generation).expect("empty").into_parts();
    assert!(tables.is_empty() && views.is_empty());
}

#[test]
fn engine_without_a_path_is_in_memory() {
    assert_eq!(engine_path(None), "memory://");
    assert_eq!(engine_path(Some("")), "memory://");
    assert_eq!(engine_path(Some("/data")), "/data");
    assert_eq!(path("memory://"), None);
    assert_eq!(path("/data"), Some("/data"));
}
