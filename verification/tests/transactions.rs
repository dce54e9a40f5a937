//! Constraint checks, log records and table access of transactions.
use radixdb_engine::ddl::request::CatalogState;
use radixdb_engine::ddl::request::PendingIndexDrop;
use radixdb_engine::ddl::request::Store;
use radixdb_engine::error::Error;
use radixdb_engine::names::NameMap;
use radixdb_engine::schema::DataType;
use radixdb_engine::schema::ForeignKeyAction;
use radixdb_engine::schema::ForeignKeyConstraint;
use radixdb_engine::schema::IndexType;
use radixdb_engine::schema::Schema;
use radixdb_engine::schema::SchemaColumn;
use radixdb_engine::schema::SchemaVerdicts;
use radixdb_engine::txn::cold_check::validate_pending_against_cold;
use radixdb_engine::txn::cold_check::PendingRow;
use radixdb_engine::txn::cold_check::UniqueIndex;
use radixdb_engine::txn::commit::stage_index_drop;
use radixdb_engine::txn::commit::stage_schema_change;
use radixdb_engine::txn::commit::validate_transaction_commit;
use radixdb_engine::txn::commit::CommitTable;
use radixdb_engine::txn::commit::SealState;
use radixdb_engine::txn::constraints::add_cold_row;
use radixdb_engine::txn::constraints::choose_value_probe;
use radixdb_engine::txn::constraints::identity_probe_found;
use radixdb_engine::txn::constraints::needs_cold_row;
use radixdb_engine::txn::constraints::parent_domain;
use radixdb_engine::txn::constraints::validate_pending_dml_constraints;
use radixdb_engine::txn::constraints::validate_table_rows;
use radixdb_engine::txn::constraints::RowChange;
use radixdb_engine::txn::constraints::ScannedRow;
use radixdb_engine::txn::constraints::TableChanges;
use radixdb_engine::txn::constraints::ValueProbe;
use radixdb_engine::txn::dml::get_tables_with_pending_changes;
use radixdb_engine::txn::dml::has_pending_dml_changes;
use radixdb_engine::txn::dml::lock_commit_membership_fences;
use radixdb_engine::txn::dml::needs_cold_recheck;
use radixdb_engine::txn::dml::publish_committed_transaction_storage;
use radixdb_engine::txn::dml::publish_transaction_dml;
use radixdb_engine::txn::dml::record_commit;
use radixdb_engine::txn::dml::record_rollback;
use radixdb_engine::txn::dml::record_transaction_dml;
use radixdb_engine::txn::dml::ColdDelete;
use radixdb_engine::txn::dml::CommitRecord;
use radixdb_engine::txn::dml::PendingVersion;
use radixdb_engine::txn::dml::TouchedTable;
use radixdb_engine::txn::order::order_by_name;
use radixdb_engine::txn::tables::activate_transactional_indexes;
use radixdb_engine::txn::tables::create_table;
use radixdb_engine::txn::tables::drop_table;
use radixdb_engine::txn::tables::get_table_for_transaction;
use radixdb_engine::txn::tables::get_table_schema;
use radixdb_engine::txn::tables::list_tables;
use radixdb_engine::txn::tables::rename_table_refused;
use radixdb_engine::txn::tables::reset_index_drops;
use radixdb_engine::txn::tables::restore_table;
use radixdb_engine::txn::tables::version_store_for_transaction;
use radixdb_engine::txn::tables::ColdReads;
use radixdb_engine::txn::tables::PreparedIndexes;
use radixdb_engine::txn::tables::StoreSource;
use radixdb_engine::txn::tables::TransactionMode;
use radixdb_engine::value::Datum;
use rustc_hash::FxHashSet;

fn number(n: i64) -> Datum {
    Datum { key: n as u64, is_null: false, text: n.to_string(), integer: Some(n) }
}

fn nothing() -> Datum {
    Datum { key: 0, is_null: true, text: "NULL".to_string(), integer: None }
}

fn txn_column(id: usize, name: &str, primary_key: bool) -> SchemaColumn {
    SchemaColumn {
        id,
        name: name.to_string(),
        name_lower: name.to_lowercase(),
        data_type: DataType::Integer,
        nullable: true,
        primary_key,
        auto_increment: false,
        default_expr: None,
        check_expr: None,
        vector_dimensions: 0,
        decimal_precision: 0,
        decimal_scale: 0,
    }
}

fn txn_schema(name: &str) -> Schema {
    Schema {
        table_name: name.to_string(),
        table_name_lower: name.to_lowercase(),
        catalog_id: 1,
        columns: vec![txn_column(0, "id", true), txn_column(1, "parent_id", false)],
        foreign_keys: Vec::new(),
        table_checks: Vec::new(),
        constraints: Vec::new(),
        next_constraint_id: 1,
        next_check_ordinal: 1,
    }
}

fn child_schema() -> Schema {
    let mut schema = txn_schema("child");
    schema.foreign_keys.push(ForeignKeyConstraint {
        column_index: 1,
        column_name: "parent_id".to_string(),
        referenced_table: "parent".to_string(),
        referenced_column: "id".to_string(),
        on_delete: ForeignKeyAction::Restrict,
        on_update: ForeignKeyAction::Restrict,
    });
    schema
}

fn good() -> SchemaVerdicts {
    SchemaVerdicts { structure: Ok(()), foreign_keys: Ok(()), persistence: Ok(()) }
}

fn state_with(names: &[&str]) -> CatalogState {
    let mut schemas = NameMap::new();
    let mut stores = NameMap::new();
    for name in names {
        schemas.insert(name.to_string(), txn_schema(name));
        stores.insert(name.to_string(), Store { schema: txn_schema(name), indexes: Vec::new() });
    }
    CatalogState { schemas, stores, pending: NameMap::new(), views: NameMap::new() }
}

fn touched_table(name: &str, rows: Vec<PendingVersion>, tombstones: Vec<i64>) -> TouchedTable {
    TouchedTable {
        name: name.to_string(),
        has_local_changes: !rows.is_empty(),
        own_id: Some(Ok(name.len() as u128)),
        published_id: None,
        has_manager: true,
        tombstones: tombstones
            .into_iter()
            .map(|row_id| ColdDelete { row_id, at: 90 + row_id })
            .collect(),
        has_index_removals: false,
        versions: rows,
    }
}

fn version(row_id: i64, is_deleted: bool) -> PendingVersion {
    PendingVersion { row_id, data: row_id as u64 * 10, is_deleted, txn_id: 1, create_time: 5 }
}

fn pending_row(row_id: i64, values: Vec<Datum>) -> PendingRow {
    let copy = values
        .iter()
        .map(|v| Datum { key: v.key, is_null: v.is_null, text: v.text.clone(), integer: v.integer })
        .collect();
    PendingRow { row_id, deleted: false, is_insert: true, data: values, coerced: copy, old: None }
}

#[test]
fn inserts_meet_cold_keys_at_once() {
    let rows = vec![pending_row(3, vec![number(3), number(7)])];
    let none = FxHashSet::default();
    let key = |_: usize, _: u64| -> Result<Option<i64>, Error> { Ok(None) };
    let unique = |_: usize, _: &Vec<u64>| -> Result<Option<i64>, Error> { Ok(None) };
    let taken = |ids: &Vec<i64>, removed: &FxHashSet<i64>| {
        ids.iter().copied().find(|id| *id == 3 && !removed.contains(id))
    };
    let error = validate_pending_against_cold(
        &rows, Some(0), DataType::Integer, &Vec::new(), &none, &key, &unique, &taken,
    )
    .expect_err("the key is taken");
    assert!(matches!(error, Error::PrimaryKeyConstraint { row_id: 3 }));
    let gone: FxHashSet<i64> = [3].into_iter().collect();
    assert!(validate_pending_against_cold(
        &rows, Some(0), DataType::Integer, &Vec::new(), &gone, &key, &unique, &taken,
    )
    .is_ok());
    let free = |_: &Vec<i64>, _: &FxHashSet<i64>| None;
    assert!(validate_pending_against_cold(
        &rows, Some(0), DataType::Integer, &Vec::new(), &none, &key, &unique, &free,
    )
    .is_ok());
}

#[test]
fn cold_unique_values_conflict_unless_they_are_removed() {
    let rows = vec![pending_row(3, vec![number(3), number(7)])];
    let index = vec![UniqueIndex { columns: vec![1], names: vec!["parent_id".to_string()] }];
    let key = |_: usize, _: u64| -> Result<Option<i64>, Error> { Ok(None) };
    let unique = |_: usize, values: &Vec<u64>| -> Result<Option<i64>, Error> {
        Ok(if values == &vec![7] { Some(40) } else { None })
    };
    let free = |_: &Vec<i64>, _: &FxHashSet<i64>| None;
    let mut removed = FxHashSet::default();
    let error = validate_pending_against_cold(
        &rows, Some(0), DataType::Integer, &index, &removed, &key, &unique, &free,
    )
    .expect_err("another row holds the value");
    match error {
        Error::UniqueConstraint { column, value, row_id, .. } => {
            assert_eq!((column.as_str(), value.as_str(), row_id), ("parent_id", "7", 40));
        }
        other => panic!("unexpected error: {other:?}"),
    }
    removed.insert(40);
    assert!(validate_pending_against_cold(
        &rows, Some(0), DataType::Integer, &index, &removed, &key, &unique, &free,
    )
    .is_ok());
}

#[test]
fn child_rows_need_their_parent() {
    let insert = |value: Datum| {
        vec![TableChanges {
            name: "child".to_string(),
            schema: child_schema(),
            rows: vec![RowChange {
                row_id: 1,
                old: None,
                new: Some(vec![number(1), value]),
                verdict: Ok(()),
            }],
            binding: Ok(()),
        }]
    };
    let schemas = vec![child_schema(), txn_schema("parent")];
    let exists = |table: &str, column: &str, value: &Datum| -> Result<bool, Error> {
        assert_eq!((table, column), ("parent", "id"));
        Ok(value.key == 5)
    };
    assert!(validate_pending_dml_constraints(&insert(number(5)), &schemas, &exists).is_ok());
    assert!(validate_pending_dml_constraints(&insert(nothing()), &schemas, &exists).is_ok());
    match validate_pending_dml_constraints(&insert(number(6)), &schemas, &exists) {
        Err(Error::ForeignKeyViolation { table, column, referenced_table, detail, .. }) => {
            assert_eq!(table, "child");
            assert_eq!(column, "parent_id");
            assert_eq!(referenced_table, "parent");
            assert_eq!(detail, "referenced row with id = 6 does not exist at commit");
        }
        other => panic!("unexpected result: {other:?}"),
    }
}

#[test]
fn parents_are_kept_while_children_refer_to_them() {
    let delete = vec![TableChanges {
        name: "parent".to_string(),
        schema: txn_schema("parent"),
        rows: vec![RowChange {
            row_id: 5,
            old: Some(vec![number(5), nothing()]),
            new: None,
            verdict: Ok(()),
        }],
        binding: Ok(()),
    }];
    let schemas = vec![child_schema(), txn_schema("parent")];
    let referred = |table: &str, column: &str, _: &Datum| -> Result<bool, Error> {
        Ok(table == "child" && column == "parent_id")
    };
    match validate_pending_dml_constraints(&delete, &schemas, &referred) {
        Err(Error::ForeignKeyViolation { detail, .. }) => {
            assert_eq!(detail, "referencing rows still exist for id = 5 at commit");
        }
        other => panic!("unexpected result: {other:?}"),
    }
    let free = |_: &str, _: &str, _: &Datum| -> Result<bool, Error> { Ok(false) };
    assert!(validate_pending_dml_constraints(&delete, &schemas, &free).is_ok());
    let mut unbound = delete;
    unbound[0].binding = Err(Error::QueryCancelled);
    assert!(matches!(
        validate_pending_dml_constraints(&unbound, &schemas, &free),
        Err(Error::QueryCancelled)
    ));
    unbound[0].rows.clear();
    assert!(validate_pending_dml_constraints(&unbound, &schemas, &free).is_ok());
}

#[test]
fn moved_parent_key_is_not_given_up() {
    let moved = vec![TableChanges {
        name: "parent".to_string(),
        schema: txn_schema("parent"),
        rows: vec![
            RowChange { row_id: 5, old: Some(vec![number(5), nothing()]), new: None, verdict: Ok(()) },
            RowChange { row_id: 6, old: None, new: Some(vec![number(5), nothing()]), verdict: Ok(()) },
        ],
        binding: Ok(()),
    }];
    let schemas = vec![child_schema(), txn_schema("parent")];
    let taken = |_: &str, _: &str, _: &Datum| -> Result<bool, Error> { Ok(true) };
    assert!(validate_pending_dml_constraints(&moved, &schemas, &taken).is_ok());
}

#[test]
fn cold_deletes_join_the_pending_rows() {
    let mut rows = Vec::new();
    assert!(needs_cold_row(&rows, 4));
    add_cold_row(&mut rows, 4, vec![number(4)]);
    assert_eq!(rows.len(), 1);
    assert!(rows[0].new.is_none());
    assert!(!needs_cold_row(&rows, 4));
}

#[test]
fn integer_keys_are_probed_by_row_identity() {
    let schema = txn_schema("parent");
    assert!(matches!(choose_value_probe(&schema, "ID", &number(8)), Ok(ValueProbe::RowId(8))));
    assert!(matches!(
        choose_value_probe(&schema, "parent_id", &number(8)),
        Ok(ValueProbe::Scan(1))
    ));
    assert!(matches!(choose_value_probe(&schema, "x", &number(8)), Err(Error::ColumnNotFound(_))));
    assert!(identity_probe_found(1, true));
    assert!(!identity_probe_found(1, false));
    assert!(!identity_probe_found(0, true));
}

#[test]
fn scanned_rows_are_checked_against_their_domains() {
    let domain = parent_domain(&vec![number(5), nothing()]);
    let row = |value: Datum| vec![ScannedRow { row: vec![number(1), value], verdict: Ok(()) }];
    let schema = child_schema();
    assert!(validate_table_rows("child", &schema, &vec![domain.clone()], &row(number(5)), Ok(()))
        .is_ok());
    assert!(validate_table_rows("child", &schema, &vec![domain.clone()], &row(nothing()), Ok(()))
        .is_ok());
    let broken = validate_table_rows("child", &schema, &vec![domain.clone()], &row(number(9)), Ok(()));
    assert!(matches!(broken, Err(Error::ForeignKeyViolation { .. })));
    let ended =
        validate_table_rows("child", &schema, &vec![domain], &Vec::new(), Err(Error::QueryCancelled));
    assert!(matches!(ended, Err(Error::QueryCancelled)));
}

#[test]
fn log_records_follow_the_order_of_names() {
    let tables = vec![
        touched_table("zz", vec![version(9, false)], vec![]),
        touched_table("a", vec![version(2, true)], vec![7]),
    ];
    let log = record_transaction_dml(1, &tables).expect("both tables have identities");
    assert_eq!(log.len(), 3);
    assert!(log.iter().take(2).all(|op| op.table_id == 1));
    assert_eq!(log[2].table_id, 2);
    assert!(log.iter().any(|op| op.is_delete && op.row_id == 7 && op.create_time == 97));
    assert!(lock_commit_membership_fences(&tables).is_empty());
    let mut published = tables;
    for table in &mut published {
        table.published_id = Some(Ok(1));
    }
    assert_eq!(lock_commit_membership_fences(&published), vec![1, 0]);
    let tables = published;
    assert_eq!(order_by_name(&vec!["b".to_string(), "a".to_string()]), vec![1, 0]);
    assert!(has_pending_dml_changes(&tables));
    assert_eq!(get_tables_with_pending_changes(&tables).len(), 2);
    assert!(!has_pending_dml_changes(&vec![touched_table("q", vec![], vec![])]));
    let mut broken = touched_table("b", vec![version(1, false)], vec![]);
    broken.own_id = Some(Err("zero".to_string()));
    match record_transaction_dml(1, &vec![broken]) {
        Err(Error::Internal { message }) => assert_eq!(
            message,
            "table 'b' has invalid catalog identity for WAL: zero"
        ),
        other => panic!("unexpected result: {other:?}"),
    }
}

#[test]
fn failed_publication_rolls_the_rest_back() {
    let tables = vec![
        touched_table("c", vec![version(1, false)], vec![]),
        touched_table("a", vec![version(1, false)], vec![]),
        touched_table("b", vec![version(1, false)], vec![]),
    ];
    let done = publish_transaction_dml(&tables, &vec![Ok(()), Ok(()), Ok(())]);
    assert!(done.error.is_none() && done.rolled_back.is_empty());
    let failed = publish_transaction_dml(&tables, &vec![Ok(()), Ok(()), Err(Error::EngineNotOpen)]);
    assert!(failed.error.is_some());
    assert!(!failed.rolled_back.is_empty());
    assert_eq!(publish_committed_transaction_storage(&tables), vec![1, 2, 0]);
}

#[test]
fn commit_records_depend_on_the_log() {
    assert_eq!(record_commit(true, true, true), CommitRecord::Skip);
    assert_eq!(record_commit(false, false, true), CommitRecord::Skip);
    assert_eq!(record_commit(false, true, true), CommitRecord::WithCatalog);
    assert_eq!(record_commit(false, true, false), CommitRecord::Plain);
    assert!(record_rollback(false, true));
    assert!(!record_rollback(true, true));
    assert!(!record_rollback(false, false));
}

#[test]
fn sealed_rows_are_checked_again() {
    assert!(needs_cold_recheck(Some(1), 2, true));
    assert!(!needs_cold_recheck(Some(2), 2, true));
    assert!(needs_cold_recheck(Some(1), 2, false));
    assert!(needs_cold_recheck(None, 2, true));
    assert!(!needs_cold_recheck(None, 2, false));
    let table = |cold: Result<(), Error>, current: u64| CommitTable {
        has_local_changes: true,
        has_store: true,
        seal: Some(SealState { recorded: Some(1), current, has_segments: true }),
        cold_check: cold,
        store_check: Ok(()),
    };
    let checked = validate_transaction_commit(
        &vec![Ok(())],
        &vec![table(Err(Error::EngineNotOpen), 2)],
        Ok(()),
    );
    assert!(checked.is_err());
    let unchanged = validate_transaction_commit(
        &vec![],
        &vec![table(Err(Error::EngineNotOpen), 1)],
        Ok(()),
    );
    assert!(unchanged.is_ok());
    assert!(validate_transaction_commit(&vec![], &vec![], Err(Error::QueryCancelled)).is_err());
    let unstaged = validate_transaction_commit(
        &vec![Ok(()), Err(Error::QueryCancelled)],
        &vec![table(Err(Error::EngineNotOpen), 2)],
        Ok(()),
    );
    assert!(matches!(unstaged, Err(Error::QueryCancelled)));
}

#[test]
fn unpublished_tables_are_private() {
    let mut state = state_with(&["t"]);
    let mut touched = Vec::new();
    create_table(
        &mut state, &mut touched, 7, "New", txn_schema("New"), Vec::new(), Ok(()), &good(), Ok(()),
    )
    .expect("a free name");
    assert_eq!(touched, vec!["new".to_string()]);
    assert_eq!(version_store_for_transaction(&state, 7, "new"), Some(StoreSource::Unpublished));
    assert_eq!(version_store_for_transaction(&state, 8, "new"), None);
    assert_eq!(version_store_for_transaction(&state, 8, "t"), Some(StoreSource::Published));
    let again = create_table(
        &mut state, &mut touched, 8, "new", txn_schema("new"), Vec::new(), Ok(()), &good(), Ok(()),
    );
    assert!(matches!(again, Err(Error::TableAlreadyExists(_))));
    let misnamed = create_table(
        &mut state, &mut touched, 8, "x", txn_schema("y"), Vec::new(), Ok(()), &good(), Ok(()),
    );
    assert!(matches!(misnamed, Err(Error::InvalidArgument(_))));
}

#[test]
fn table_handles_read_as_their_transaction_does() {
    let state = state_with(&["t"]);
    let snapshot = TransactionMode { is_snapshot: true, begin_sequence: 12 };
    let latest = TransactionMode { is_snapshot: false, begin_sequence: 12 };
    let plan = get_table_for_transaction(&state, 1, "T", &Vec::new(), true, true, snapshot)
        .expect("published");
    assert_eq!(plan.source, StoreSource::Published);
    assert_eq!(plan.reads, ColdReads::AsOf(12));
    assert_eq!(plan.touched, None);
    let plan = get_table_for_transaction(
        &state, 1, "t", &vec!["t".to_string()], true, true, latest,
    )
    .expect("published");
    assert_eq!(plan.reads, ColdReads::Latest);
    assert_eq!(plan.touched, Some(0));
    let missing = get_table_for_transaction(&state, 1, "x", &Vec::new(), true, true, latest);
    assert!(matches!(missing, Err(Error::TableNotFound(_))));
}

#[test]
fn tables_are_listed_dropped_and_restored() {
    let mut state = state_with(&["b", "a"]);
    let mut names = list_tables(&state.schemas);
    names.sort();
    assert_eq!(names, vec!["a".to_string(), "b".to_string()]);
    assert!(get_table_schema(&state, true, "A").is_ok());
    assert!(matches!(get_table_schema(&state, false, "a"), Err(Error::EngineNotOpen)));
    // Only a reservation can be dropped at once.
    assert!(matches!(drop_table(&mut state, "a"), Err(Error::TableNotFound(_))));
    let mut touched = Vec::new();
    create_table(
        &mut state, &mut touched, 7, "New", txn_schema("New"), Vec::new(), Ok(()), &good(), Ok(()),
    )
    .expect("a free name");
    drop_table(&mut state, "NEW").expect("reserved");
    assert!(!state.pending.contains_key("new"));
    let mut epoch = 4;
    restore_table(&mut state, &mut epoch, "c", txn_schema("c"), Vec::new(), Ok(()))
        .expect("a free name");
    assert_eq!(epoch, 5);
    assert!(state.schemas.contains_key("c"));
    assert!(matches!(rename_table_refused("a", "b"), Error::NotSupported(_)));
}

#[test]
fn staged_changes_need_a_touched_table() {
    let names = vec!["t".to_string()];
    assert_eq!(stage_schema_change(&names, "T").expect("touched"), 0);
    assert!(stage_schema_change(&names, "u").is_err());
    assert!(stage_index_drop(&names, "u").is_err());
    let drops = vec![PendingIndexDrop {
        table_name: "t".to_string(),
        index_name: "i".to_string(),
        schema_owned: false,
    }];
    assert_eq!(reset_index_drops(&drops, "t"), vec!["i".to_string()]);
    assert!(reset_index_drops(&drops, "u").is_empty());
}

#[test]
fn indexes_are_activated_in_order_and_taken_back() {
    let prepared = |name: &str| PreparedIndexes {
        table_name: name.to_string(),
        index_names: vec!["i".to_string()],
        index_types: vec![IndexType::BTree],
        has_segments: true,
    };
    let tables = vec![prepared("b"), prepared("a")];
    let done = activate_transactional_indexes(&tables, &vec![Ok(()), Ok(())]);
    assert_eq!(done.order, vec![1, 0]);
    assert!(done.error.is_none());
    let failed = activate_transactional_indexes(&tables, &vec![Err("full".to_string()), Ok(())]);
    assert!(failed.error.is_some());
    assert!(failed.deactivate.contains(&1));
}

#[test]
fn a_passing_read_fault_ends_the_check() {
    let rows = vec![
        pending_row(3, vec![number(3), number(7)]),
        pending_row(4, vec![number(4), number(7)]),
    ];
    let index = vec![UniqueIndex { columns: vec![1], names: vec!["parent_id".to_string()] }];
    let none = FxHashSet::default();
    let key = |_: usize, _: u64| -> Result<Option<i64>, Error> { Ok(None) };
    let calls = std::cell::Cell::new(0);
    let unique = |_: usize, _: &Vec<u64>| -> Result<Option<i64>, Error> {
        calls.set(calls.get() + 1);
        if calls.get() == 2 {
            Err(Error::QueryCancelled)
        } else {
            Ok(None)
        }
    };
    let free = |_: &Vec<i64>, _: &FxHashSet<i64>| None;
    let end = validate_pending_against_cold(
        &rows, Some(0), DataType::Integer, &index, &none, &key, &unique, &free,
    );
    assert!(matches!(end, Err(Error::QueryCancelled)));
    assert!(validate_pending_against_cold(
        &rows, Some(0), DataType::Integer, &index, &none, &key, &unique, &free,
    )
    .is_ok());
    assert_eq!(calls.get(), 4);

    let child = vec![TableChanges {
        name: "child".to_string(),
        schema: child_schema(),
        rows: vec![RowChange {
            row_id: 1,
            old: None,
            new: Some(vec![number(1), number(5)]),
            verdict: Ok(()),
        }],
        binding: Ok(()),
    }];
    let schemas = vec![child_schema(), txn_schema("parent")];
    let asked = std::cell::Cell::new(false);
    let exists = |_: &str, _: &str, _: &Datum| -> Result<bool, Error> {
        if asked.replace(true) {
            Ok(true)
        } else {
            Err(Error::QueryCancelled)
        }
    };
    let first = validate_pending_dml_constraints(&child, &schemas, &exists);
    assert!(matches!(first, Err(Error::QueryCancelled)));
    assert!(validate_pending_dml_constraints(&child, &schemas, &exists).is_ok());
}
