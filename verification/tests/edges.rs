//! Small decisions around the larger ones.
use radixdb_engine::ddl::index_build::authorized_index_stores;
use radixdb_engine::ddl::request::CatalogState;
use radixdb_engine::ddl::request::PendingIndexDefinition;
use radixdb_engine::ddl::request::PendingSchemaChange;
use radixdb_engine::engine::checkpoint::force_checkpoint_cycle;
use radixdb_engine::engine::lifecycle::start_cleanup;
use radixdb_engine::engine::lookups::list_table_indexes;
use radixdb_engine::engine::lookups::require_open;
use radixdb_engine::engine::truncate::truncate_uncertain;
use radixdb_engine::engine::worker::merge_step;
use radixdb_engine::engine::worker::requests_next_merge;
use radixdb_engine::engine::worker::schedules_checkpoint;
use radixdb_engine::engine::worker::MergeStep;
use radixdb_engine::error::Error;
use radixdb_engine::names::NameMap;
use radixdb_engine::recovery::hnsw::backfill_failed;
use radixdb_engine::recovery::hnsw::BackfillStep;
use radixdb_engine::runtime::maintenance::EngineMaintenanceState;
use radixdb_engine::runtime::operation::RuntimeOperationState;
use radixdb_engine::schema::IndexInfo;
use radixdb_engine::schema::IndexType;
use radixdb_engine::schema::Schema;
use radixdb_engine::schema::SchemaVerdicts;
use radixdb_engine::snapshot::components::require_restore_directory;
use radixdb_engine::snapshot::components::PathStatus;
use radixdb_engine::snapshot::members::snapshot_unix_nanos;
use radixdb_engine::snapshot::swap::cleanup_committed_restore;
use radixdb_engine::snapshot::swap::prepare_restore_backup;
use radixdb_engine::snapshot::swap::CleanupStep;
use radixdb_engine::txn::dml::rollback_all_tables;
use radixdb_engine::txn::dml::TouchedTable;
use radixdb_engine::txn::tables::get_table_schema_for_txn;
use radixdb_engine::txn::tables::marks_cold_populated;
use radixdb_engine::txn::tables::reset_schema_changes;
use radixdb_engine::txn::tables::PreparedIndexes;

fn told(error: &Error) -> String {
    match error {
        Error::Internal { message } => message.clone(),
        other => panic!("unexpected error: {other:?}"),
    }
}

fn plain_schema(name: &str) -> Schema {
    Schema {
        table_name: name.to_string(),
        table_name_lower: name.to_lowercase(),
        catalog_id: 1,
        columns: Vec::new(),
        foreign_keys: Vec::new(),
        table_checks: Vec::new(),
        constraints: Vec::new(),
        next_constraint_id: 1,
        next_check_ordinal: 1,
    }
}

fn staged(name: &str, ordinal: u64) -> PendingSchemaChange {
    let mut schema = plain_schema(name);
    schema.next_constraint_id = ordinal;
    PendingSchemaChange {
        table_name: name.to_string(),
        schema,
        expected_catalog_schema: plain_schema(name),
        physical_transition: None,
        requires_row_normalization: false,
        verdicts: SchemaVerdicts { structure: Ok(()), foreign_keys: Ok(()), persistence: Ok(()) },
    }
}

fn wanted(table: &str) -> PendingIndexDefinition {
    PendingIndexDefinition {
        table_name: table.to_string(),
        index_name: "i".to_string(),
        columns: Vec::new(),
        is_unique: false,
        index_type: None,
        hnsw_m: None,
        hnsw_ef_construction: None,
        hnsw_ef_search: None,
        hnsw_distance_metric: None,
        is_partial: false,
        has_key_encoder: false,
    }
}

#[test]
fn worker_is_started_once() {
    let plan = start_cleanup(false, true, true, false);
    assert!(plan.worker && plan.warmup);
    assert!(!start_cleanup(true, true, false, true).worker);
    assert!(!start_cleanup(false, false, false, false).worker);
    assert_eq!(merge_step(false, true), MergeStep::Nothing);
    assert_eq!(merge_step(true, true), MergeStep::KeepRequest);
    assert_eq!(merge_step(true, false), MergeStep::Start);
    assert!(requests_next_merge(Ok(true), false));
    assert!(requests_next_merge(Err(Error::EngineNotOpen), true));
    assert!(!requests_next_merge(Err(Error::EngineNotOpen), false));
    assert!(schedules_checkpoint(1, true));
    assert!(!schedules_checkpoint(0, true) && !schedules_checkpoint(1, false));
}

#[test]
fn partial_checkpoint_still_asks_for_a_merge() {
    assert!(force_checkpoint_cycle(&Ok(())));
    let unsealed = "forced checkpoint left committed hot rows unsealed".to_string();
    assert!(force_checkpoint_cycle(&Err(Error::Internal { message: unsealed })));
    assert!(!force_checkpoint_cycle(&Err(Error::Internal { message: "full".to_string() })));
    assert!(!force_checkpoint_cycle(&Err(Error::EngineNotOpen)));
}

#[test]
fn indexes_are_listed_with_their_kinds() {
    let index = |name: &str, index_type: IndexType| IndexInfo {
        name: name.to_string(),
        index_type,
        is_unique: false,
        column_ids: vec![1],
        predicate_columns: None,
    };
    let indexes = vec![index("near", IndexType::Hnsw), index("by_day", IndexType::BTree)];
    let listed = list_table_indexes(&plain_schema("t"), &indexes);
    assert_eq!(listed.get("near").map(String::as_str), Some("HNSW"));
    assert_eq!(listed.get("by_day").map(String::as_str), Some("BTree"));
    assert!(listed.get("other").is_none());
    assert!(require_open(true).is_ok());
    assert!(matches!(require_open(false), Err(Error::EngineNotOpen)));
    match truncate_uncertain("t", "torn") {
        Error::WalDurabilityUncertain { detail } => assert_eq!(
            detail,
            "TRUNCATE 't' is durably committed but persisted segment publication requires \
             recovery: torn"
        ),
        other => panic!("unexpected error: {other:?}"),
    }
}

#[test]
fn last_staged_schema_is_the_overlay() {
    let changes = vec![staged("T", 2), staged("u", 3), staged("t", 4)];
    assert_eq!(reset_schema_changes(&changes, "t"), Some(2));
    assert_eq!(reset_schema_changes(&changes, "U"), Some(1));
    assert_eq!(reset_schema_changes(&changes, "w"), None);
    let mut schemas = NameMap::new();
    schemas.insert("t".to_string(), plain_schema("t"));
    let state = CatalogState {
        schemas,
        stores: NameMap::new(),
        pending: NameMap::new(),
        views: NameMap::new(),
    };
    let overlay = Some(staged("t", 9).schema);
    let own = get_table_schema_for_txn(&state, true, overlay, 7, "T").expect("its overlay");
    assert_eq!(own.next_constraint_id, 9);
    let shared = get_table_schema_for_txn(&state, true, None, 7, "T").expect("published");
    assert_eq!(shared.next_constraint_id, 1);
    assert!(matches!(
        get_table_schema_for_txn(&state, true, None, 7, "none"),
        Err(Error::TableNotFound(_))
    ));
}

#[test]
fn touched_tables_are_named_by_position() {
    let touched = vec!["a".to_string(), "b".to_string()];
    let stores = authorized_index_stores(&touched, &vec![wanted("b"), wanted("b"), wanted("c")]);
    assert_eq!(stores, vec![1]);
    let table = |has_manager: bool| TouchedTable {
        name: "t".to_string(),
        has_local_changes: false,
        own_id: None,
        published_id: None,
        has_manager,
        tombstones: Vec::new(),
        has_index_removals: false,
        versions: Vec::new(),
    };
    assert_eq!(rollback_all_tables(&vec![table(false), table(true), table(true)]), vec![1, 2]);
    let prepared = |has_segments: bool| PreparedIndexes {
        table_name: "t".to_string(),
        index_names: Vec::new(),
        index_types: Vec::new(),
        has_segments,
    };
    assert!(marks_cold_populated(&prepared(true), IndexType::Hash));
    assert!(!marks_cold_populated(&prepared(true), IndexType::PrimaryKey));
    assert!(!marks_cold_populated(&prepared(false), IndexType::Hash));
}

#[test]
fn backfill_names_the_failed_step() {
    assert_eq!(
        told(&backfill_failed("t", BackfillStep::Scan { segment_id: 12 }, "torn")),
        "cold index segment scan failed for t seg=12: torn"
    );
    assert_eq!(
        told(&backfill_failed("t", BackfillStep::Close { segment_id: 3 }, "torn")),
        "cold index segment scanner close failed for t seg=3: torn"
    );
    assert_eq!(
        told(&backfill_failed("t", BackfillStep::Add, "full")),
        "cold index population failed for t: full"
    );
}

#[test]
fn books_note_the_last_round() {
    let mut books = EngineMaintenanceState::new();
    books.record_background_success(77);
    assert_eq!(books.background_last_success_unix_millis, 77);
    let mut state = RuntimeOperationState::new();
    let guard = state.start(100);
    guard.set_result_marker(&mut state, 5);
    guard.set_result_marker(&mut state, 3);
    assert_eq!(state.snapshot(110).counters.last_result_marker, 5);
    assert_eq!(snapshot_unix_nanos(9), 9);
    assert_eq!(snapshot_unix_nanos(u128::MAX), u64::MAX);
}

#[test]
fn restore_leftovers_are_cleared_in_order() {
    assert!(require_restore_directory("staging", "p", &PathStatus::Directory).is_ok());
    let error = require_restore_directory("staging", "p", &PathStatus::File).expect_err("a file");
    assert_eq!(told(&error), "staging 'p' is not a real directory");
    let fault = PathStatus::Fault { text: "denied".to_string() };
    let error = require_restore_directory("staging", "p", &fault).expect_err("unreadable");
    assert_eq!(told(&error), "failed to inspect staging 'p': denied");
    assert_eq!(prepare_restore_backup("p", &PathStatus::Absent, true).ok(), Some(false));
    assert_eq!(prepare_restore_backup("p", &PathStatus::Directory, true).ok(), Some(true));
    let error = prepare_restore_backup("p", &PathStatus::Directory, false).expect_err("full");
    assert_eq!(told(&error), "non-empty physical restore backup exists without durable state");
    let error = prepare_restore_backup("p", &PathStatus::Symlink, true).expect_err("a link");
    assert_eq!(told(&error), "physical restore backup is not a real directory");
    let steps = cleanup_committed_restore();
    assert_eq!(steps.len(), 6);
    assert!(matches!(&steps[4], CleanupStep::Remove(name) if name == ".physical-restore-state"));
    assert!(matches!(steps[3], CleanupStep::Sync) && matches!(steps[5], CleanupStep::Sync));
}
