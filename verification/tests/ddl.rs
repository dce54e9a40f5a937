//! Schemas, and the preparation and publication of transactional DDL.
use radixdb_engine::ddl::commit::catalog_publication_failed;
use radixdb_engine::ddl::commit::complete_publication;
use radixdb_engine::ddl::commit::indexes_needing_fallback;
use radixdb_engine::ddl::commit::next_catalog_generation;
use radixdb_engine::ddl::commit::publish_transactional_ddl;
use radixdb_engine::ddl::commit::CatalogFault;
use radixdb_engine::ddl::commit::IndexCompletion;
use radixdb_engine::ddl::commit::PublishOutcomes;
use radixdb_engine::ddl::commit::RuntimeCatalog;
use radixdb_engine::ddl::final_catalog::check_catalog_keys;
use radixdb_engine::ddl::index_build::can_defer_cold_index_backfill;
use radixdb_engine::ddl::index_build::choose_index_build;
use radixdb_engine::ddl::index_build::HnswDistanceMetric;
use radixdb_engine::ddl::index_build::IndexBuild;
use radixdb_engine::ddl::plan::prepare_transactional_ddl;
use radixdb_engine::ddl::prepare::check_authority;
use radixdb_engine::ddl::prepare::check_drops;
use radixdb_engine::ddl::prepare::check_index_drops;
use radixdb_engine::ddl::prepare::check_index_renames;
use radixdb_engine::ddl::prepare::check_table_renames;
use radixdb_engine::ddl::prepare::check_transitions;
use radixdb_engine::ddl::prepare::check_view_dependents;
use radixdb_engine::ddl::prepare::final_schema_changes;
use radixdb_engine::ddl::publish::mappings_to_refresh;
use radixdb_engine::ddl::publish::register_pk_index;
use radixdb_engine::ddl::publish::stores_to_normalize;
use radixdb_engine::ddl::publish::ColdOwner;
use radixdb_engine::ddl::publish::ColumnEvent;
use radixdb_engine::ddl::request::BoundCatalog;
use radixdb_engine::ddl::request::CatalogState;
use radixdb_engine::ddl::request::CreatedTable;
use radixdb_engine::ddl::request::DdlRequest;
use radixdb_engine::ddl::request::DroppedTable;
use radixdb_engine::ddl::request::PendingIndexDefinition;
use radixdb_engine::ddl::request::PendingIndexDrop;
use radixdb_engine::ddl::request::PendingIndexRename;
use radixdb_engine::ddl::request::PendingSchemaChange;
use radixdb_engine::ddl::request::PendingTable;
use radixdb_engine::ddl::request::PendingTableRename;
use radixdb_engine::ddl::request::SchemaPhysicalTransition;
use radixdb_engine::ddl::request::Store;
use radixdb_engine::error::Error;
use radixdb_engine::model::Model;
use radixdb_engine::names::NameMap;
use radixdb_engine::schema::is_schema_derived_pk_index;
use radixdb_engine::schema::rename_schema_fk_target;
use radixdb_engine::schema::schema_derived_pk_index_name;
use radixdb_engine::schema::strip_parent;
use radixdb_engine::schema::validate_schema;
use radixdb_engine::schema::DataType;
use radixdb_engine::schema::ForeignKeyAction;
use radixdb_engine::schema::ForeignKeyConstraint;
use radixdb_engine::schema::IndexInfo;
use radixdb_engine::schema::IndexType;
use radixdb_engine::schema::Schema;
use radixdb_engine::schema::SchemaColumn;
use radixdb_engine::schema::SchemaVerdicts;
use radixdb_engine::view::ViewDefinition;

fn ddl_column(id: usize, name: &str, data_type: DataType, primary_key: bool) -> SchemaColumn {
    SchemaColumn {
        id,
        name: name.to_string(),
        name_lower: name.to_lowercase(),
        data_type,
        nullable: !primary_key,
        primary_key,
        auto_increment: false,
        default_expr: None,
        check_expr: None,
        vector_dimensions: 0,
        decimal_precision: 0,
        decimal_scale: 0,
    }
}

fn ddl_schema(name: &str) -> Schema {
    Schema {
        table_name: name.to_string(),
        table_name_lower: name.to_lowercase(),
        catalog_id: 7,
        columns: vec![
            ddl_column(0, "Id", DataType::Integer, true),
            ddl_column(1, "Owner", DataType::Integer, false),
        ],
        foreign_keys: Vec::new(),
        table_checks: Vec::new(),
        constraints: Vec::new(),
        next_constraint_id: 1,
        next_check_ordinal: 1,
    }
}

fn foreign_key(column_index: usize, column: &str, table: &str, referenced: &str) -> ForeignKeyConstraint {
    ForeignKeyConstraint {
        column_index,
        column_name: column.to_string(),
        referenced_table: table.to_string(),
        referenced_column: referenced.to_string(),
        on_delete: ForeignKeyAction::Restrict,
        on_update: ForeignKeyAction::NoAction,
    }
}

fn accepted() -> SchemaVerdicts {
    SchemaVerdicts { structure: Ok(()), foreign_keys: Ok(()), persistence: Ok(()) }
}

fn empty_request(txn_id: i64) -> DdlRequest {
    DdlRequest {
        txn_id,
        created_tables: Vec::new(),
        dropped_tables: Vec::new(),
        indexes: Vec::new(),
        index_drops: Vec::new(),
        index_renames: Vec::new(),
        table_renames: Vec::new(),
        schema_changes: Vec::new(),
        has_catalog_mutation: true,
    }
}

fn ddl_index(name: &str, column_ids: Vec<i32>) -> IndexInfo {
    IndexInfo {
        name: name.to_string(),
        index_type: IndexType::BTree,
        is_unique: false,
        column_ids,
        predicate_columns: None,
    }
}

fn published(names: &[&str]) -> CatalogState {
    let mut schemas = NameMap::new();
    let mut stores = NameMap::new();
    for name in names {
        schemas.insert(name.to_lowercase(), ddl_schema(name));
        stores.insert(
            name.to_lowercase(),
            Store { schema: ddl_schema(name), indexes: vec![ddl_index("by_owner", vec![1])] },
        );
    }
    CatalogState { schemas, stores, pending: NameMap::new(), views: NameMap::new() }
}

fn definition(kind: Option<IndexType>) -> PendingIndexDefinition {
    PendingIndexDefinition {
        table_name: "t".to_string(),
        index_name: "i".to_string(),
        columns: vec!["owner".to_string()],
        is_unique: false,
        index_type: kind,
        hnsw_m: None,
        hnsw_ef_construction: None,
        hnsw_ef_search: None,
        hnsw_distance_metric: None,
        is_partial: false,
        has_key_encoder: false,
    }
}

fn internal_message(error: &Error) -> &str {
    match error {
        Error::Internal { message } => message.as_str(),
        other => panic!("not an internal error: {other:?}"),
    }
}

fn uncertain_message(error: &Error) -> &str {
    match error {
        Error::WalDurabilityUncertain { detail } => detail.as_str(),
        other => panic!("not uncertain: {other:?}"),
    }
}

fn argument_message(error: &Error) -> &str {
    match error {
        Error::InvalidArgument(message) => message.as_str(),
        other => panic!("not an argument error: {other:?}"),
    }
}

#[test]
fn schemas_are_checked_column_by_column() {
    assert!(validate_schema(&ddl_schema("T"), &accepted()).is_ok());
    let mut schema = ddl_schema("");
    schema.table_name_lower = String::new();
    let error = validate_schema(&schema, &accepted()).expect_err("no name");
    assert_eq!(internal_message(&error), "schema missing table name");
    let mut schema = ddl_schema("t");
    schema.columns[1].name = String::new();
    let error = validate_schema(&schema, &accepted()).expect_err("unnamed column");
    assert_eq!(internal_message(&error), "column name cannot be empty");
    let mut schema = ddl_schema("t");
    schema.columns[1].name_lower = "id".to_string();
    assert!(matches!(validate_schema(&schema, &accepted()), Err(Error::DuplicateColumn)));
    let mut schema = ddl_schema("t");
    schema.columns[1].auto_increment = true;
    schema.columns[1].data_type = DataType::Text;
    let error = validate_schema(&schema, &accepted()).expect_err("text cannot count up");
    assert_eq!(argument_message(&error), "auto-increment column Owner must be INTEGER or UUID");
    let refused = SchemaVerdicts { persistence: Err(Error::internal("codec")), ..accepted() };
    let error = validate_schema(&ddl_schema("t"), &refused).expect_err("not storable");
    assert_eq!(internal_message(&error), "codec");
}

#[test]
fn key_index_is_derived_from_the_schema() {
    let mut schema = ddl_schema("T");
    // An INTEGER key is the row identity and needs no index.
    assert_eq!(schema.get_column_index("OWNER"), Some(1));
    assert_eq!(schema.get_column_index("none"), None);
    assert_eq!(schema.primary_key_indices(), vec![0]);
    schema.columns[0].data_type = DataType::Text;
    assert_eq!(schema_derived_pk_index_name(&schema), Some("__pk_t_Id".to_string()));
    let index = register_pk_index(&schema).expect("a text key is indexed");
    assert_eq!(index.name, "__pk_t_Id");
    assert!(index.is_unique);
    assert!(!is_schema_derived_pk_index(&schema, &ddl_index("by_owner", vec![0])));
}

#[test]
fn foreign_keys_follow_their_parent() {
    let mut schema = ddl_schema("child");
    schema.foreign_keys.push(foreign_key(1, "Owner", "parent", "id"));
    rename_schema_fk_target(&mut schema, "parent", "renamed");
    assert_eq!(schema.foreign_keys[0].referenced_table, "renamed");
    assert!(!strip_parent(&mut schema, "parent"));
    assert!(strip_parent(&mut schema, "renamed"));
    assert!(schema.foreign_keys.is_empty());
}

#[test]
fn physical_changes_need_a_typed_mutation() {
    let mut request = empty_request(1);
    request.has_catalog_mutation = false;
    assert!(check_authority(&request).is_ok());
    request.index_drops.push(PendingIndexDrop {
        table_name: "t".to_string(),
        index_name: "i".to_string(),
        schema_owned: false,
    });
    assert!(matches!(check_authority(&request), Err(Error::NotSupported(_))));
}

#[test]
fn reserved_table_is_prepared() {
    let mut state = published(&["parent"]);
    state.pending.insert(
        "child".to_string(),
        PendingTable { owner_txn_id: 5, schema: ddl_schema("Child"), indexes: Vec::new() },
    );
    let mut request = empty_request(5);
    request.created_tables.push(CreatedTable { name: "Child".to_string(), verdicts: accepted() });
    let bound = BoundCatalog {
        schemas: vec![ddl_schema("parent"), ddl_schema("Child")],
        views: Vec::new(),
    };
    let plan = prepare_transactional_ddl(&state, &request, Some(Ok(bound))).expect("prepared");
    assert!(plan.catalog.contains_key("child"));
    assert!(plan.catalog.contains_key("parent"));
    assert!(plan.bound.is_some());

    let error = prepare_transactional_ddl(&state, &request, Some(Err(Error::EngineNotOpen)))
        .expect_err("not bound");
    assert!(matches!(error, Error::EngineNotOpen));
    request.txn_id = 6;
    let bound = BoundCatalog { schemas: Vec::new(), views: Vec::new() };
    let error = prepare_transactional_ddl(&state, &request, Some(Ok(bound)))
        .expect_err("another owner");
    assert_eq!(
        internal_message(&error),
        "pending table 'Child' belongs to transaction 5, not 6"
    );
    let state = published(&[]);
    let bound = BoundCatalog { schemas: Vec::new(), views: Vec::new() };
    let error = prepare_transactional_ddl(&state, &request, Some(Ok(bound)))
        .expect_err("no reservation");
    assert_eq!(
        internal_message(&error),
        "transaction 6 lost pending table reservation 'Child'"
    );
}

#[test]
fn typed_and_physical_catalogs_must_agree() {
    let state = published(&["t"]);
    let bound = BoundCatalog { schemas: Vec::new(), views: Vec::new() };
    let mut request = empty_request(1);
    request.table_renames.push(PendingTableRename {
        old_name: "t".to_string(),
        new_name: "u".to_string(),
    });
    let error = prepare_transactional_ddl(&state, &request, Some(Ok(bound)))
        .expect_err("one catalog is empty");
    assert_eq!(
        internal_message(&error),
        "typed catalog and physical DDL resolve to different table sets"
    );
    let bound = BoundCatalog { schemas: vec![ddl_schema("u")], views: Vec::new() };
    let plan = prepare_transactional_ddl(&state, &request, Some(Ok(bound))).expect("renamed");
    assert!(plan.catalog.contains_key("u"));
    assert!(!plan.catalog.contains_key("t"));
}

#[test]
fn drops_notice_a_changed_catalog() {
    let state = published(&["t"]);
    let same = vec![DroppedTable { name: "t".to_string(), schema: ddl_schema("t") }];
    assert!(check_drops(&state.schemas, &same).is_ok());
    let mut other = ddl_schema("t");
    other.columns.pop();
    let moved = vec![DroppedTable { name: "t".to_string(), schema: other }];
    let error = check_drops(&state.schemas, &moved).expect_err("it changed meanwhile");
    assert_eq!(
        argument_message(&error),
        "transactional DROP TABLE conflict on 't': catalog changed; retry the transaction"
    );
    let gone = vec![DroppedTable { name: "u".to_string(), schema: ddl_schema("u") }];
    assert!(matches!(check_drops(&state.schemas, &gone), Err(Error::TableNotFound(_))));
    let mut views = NameMap::new();
    views.insert(
        "v".to_string(),
        ViewDefinition::from_bound_query("V", "SELECT 1".to_string(), vec!["t".to_string()])
            .expect("a view"),
    );
    assert!(check_view_dependents(&same, &views).is_err());
    assert!(check_view_dependents(&Vec::new(), &views).is_ok());
}

#[test]
fn last_change_of_a_table_counts() {
    let change = |table: &str, epoch: u64| PendingSchemaChange {
        table_name: table.to_string(),
        schema: Schema { next_constraint_id: epoch, ..ddl_schema(table) },
        expected_catalog_schema: ddl_schema(table),
        physical_transition: None,
        requires_row_normalization: false,
        verdicts: accepted(),
    };
    let changes = vec![change("b", 1), change("a", 2), change("B", 3)];
    assert_eq!(final_schema_changes(&changes), vec![1, 2]);
}

#[test]
fn indexed_columns_are_not_dropped() {
    let state = published(&["t"]);
    let change = |transition: SchemaPhysicalTransition| {
        vec![PendingSchemaChange {
            table_name: "t".to_string(),
            schema: ddl_schema("t"),
            expected_catalog_schema: ddl_schema("t"),
            physical_transition: Some(transition),
            requires_row_normalization: false,
            verdicts: accepted(),
        }]
    };
    let drop = SchemaPhysicalTransition::DropColumn {
        column_name: "Owner".to_string(),
        column_index: 1,
    };
    assert!(check_transitions(&state.stores, &change(drop)).is_err());
    let rename = SchemaPhysicalTransition::RenameColumn {
        old_name: "Owner".to_string(),
        new_name: "Holder".to_string(),
    };
    assert!(check_transitions(&state.stores, &change(rename)).is_ok());
}

#[test]
fn indexes_are_dropped_and_renamed_by_name() {
    let state = published(&["t"]);
    let drop = |index: &str| {
        vec![PendingIndexDrop {
            table_name: "t".to_string(),
            index_name: index.to_string(),
            schema_owned: false,
        }]
    };
    assert!(check_index_drops(&state.stores, &Vec::new(), &drop("by_owner")).is_ok());
    assert!(matches!(
        check_index_drops(&state.stores, &Vec::new(), &drop("none")),
        Err(Error::IndexNotFound(_))
    ));
    let rename = |from: &str, to: &str| {
        vec![PendingIndexRename {
            table_name: "t".to_string(),
            old_index_name: from.to_string(),
            new_index_name: to.to_string(),
        }]
    };
    assert!(check_index_renames(&state.stores, &rename("by_owner", "other")).is_ok());
    assert!(check_index_renames(&state.stores, &rename("none", "other")).is_err());
    assert!(matches!(
        check_index_renames(&state.stores, &rename("by_owner", "by_owner")),
        Err(Error::IndexAlreadyExists(_))
    ));
    let renames = vec![PendingTableRename {
        old_name: "missing".to_string(),
        new_name: "x".to_string(),
    }];
    assert!(check_table_renames(&state.schemas, &state.stores, &renames).is_err());
}

#[test]
fn final_catalog_keeps_its_references() {
    let mut catalog = NameMap::new();
    let mut child = ddl_schema("child");
    child.foreign_keys.push(foreign_key(1, "Owner", "parent", "id"));
    catalog.insert("child".to_string(), child.duplicate());
    let error = check_catalog_keys(&catalog).expect_err("no parent");
    assert_eq!(
        argument_message(&error),
        "foreign key 'child.Owner' references table 'parent' absent from the final transaction catalog"
    );
    catalog.insert("parent".to_string(), ddl_schema("parent"));
    assert!(check_catalog_keys(&catalog).is_ok());
    child.foreign_keys[0].referenced_column = "nothing".to_string();
    catalog.insert("child".to_string(), child);
    let error = check_catalog_keys(&catalog).expect_err("no such column");
    assert_eq!(
        argument_message(&error),
        "foreign key 'child.Owner' references missing column 'parent.nothing'"
    );
}

#[test]
fn index_builds_are_chosen_by_kind() {
    let plain = definition(Some(IndexType::BTree));
    assert!(matches!(choose_index_build(&plain, Ok(()), false), Ok(IndexBuild::Plain)));
    assert!(matches!(choose_index_build(&plain, Ok(()), true), Ok(IndexBuild::DeferredColdBackfill)));
    let mut hnsw = definition(Some(IndexType::Hnsw));
    match choose_index_build(&hnsw, Ok(()), false).expect("defaults fit") {
        IndexBuild::Hnsw { m, ef_construction, ef_search, metric } => {
            assert_eq!((m, ef_construction, ef_search), (16, 200, 50));
            assert_eq!(metric, HnswDistanceMetric::L2);
        }
        other => panic!("unexpected build: {other:?}"),
    }
    hnsw.hnsw_ef_search = Some(0);
    let error = choose_index_build(&hnsw, Ok(()), false).expect_err("no search breadth");
    assert_eq!(
        argument_message(&error),
        "HNSW ef_construction and ef_search must be greater than zero"
    );
    let mut encoded = definition(None);
    encoded.has_key_encoder = true;
    assert!(choose_index_build(&encoded, Ok(()), false).is_err());
    let gone = choose_index_build(&encoded, Err(Error::EngineNotOpen), false);
    assert!(matches!(gone, Err(Error::EngineNotOpen)));
    let state = published(&["t"]);
    assert!(!can_defer_cold_index_backfill(&plain, false, true, &state.schemas));
}

#[test]
fn committed_request_is_published() {
    let mut state = published(&["old", "kept"]);
    state.pending.insert(
        "fresh".to_string(),
        PendingTable { owner_txn_id: 3, schema: ddl_schema("Fresh"), indexes: Vec::new() },
    );
    let mut cold = NameMap::new();
    cold.insert(
        "kept".to_string(),
        ColdOwner { has_segments: true, populated: NameMap::new(), events: Vec::new() },
    );
    let mut runtime = RuntimeCatalog { state, cold, schema_epoch: 10 };
    let mut request = empty_request(3);
    request.created_tables.push(CreatedTable { name: "Fresh".to_string(), verdicts: accepted() });
    request.dropped_tables.push(DroppedTable { name: "old".to_string(), schema: ddl_schema("old") });
    request.schema_changes.push(PendingSchemaChange {
        table_name: "kept".to_string(),
        schema: ddl_schema("kept"),
        expected_catalog_schema: ddl_schema("kept"),
        physical_transition: Some(SchemaPhysicalTransition::RenameColumn {
            old_name: "Owner".to_string(),
            new_name: "Holder".to_string(),
        }),
        requires_row_normalization: true,
        verdicts: accepted(),
    });
    let outcomes = PublishOutcomes {
        transitions: vec![Ok(vec![ddl_index("by_holder", vec![1])])],
        key_indexes: vec![Ok(())],
        index_renames: Vec::new(),
        catalog: Ok(()),
    };
    let prepared = BoundCatalog {
        schemas: vec![ddl_schema("kept"), ddl_schema("Fresh")],
        views: Vec::new(),
    };
    publish_transactional_ddl(&mut runtime, &request, &vec![0], Some(prepared), &outcomes)
        .expect("published");
    assert!(runtime.state.schemas.contains_key("fresh"));
    assert!(runtime.state.stores.contains_key("fresh"));
    let kept = runtime.state.stores.get("kept").expect("still there");
    assert_eq!(kept.indexes.len(), 1);
    assert_eq!(kept.indexes[0].name, "by_holder");
    assert_eq!(stores_to_normalize(&request.schema_changes, &vec![0]), vec![0]);
    assert_eq!(mappings_to_refresh(&runtime.cold, &request.schema_changes, &vec![0]), vec![0]);
    assert!(mappings_to_refresh(&NameMap::new(), &request.schema_changes, &vec![0]).is_empty());
    assert!(!runtime.state.schemas.contains_key("old"));
    assert!(!runtime.state.pending.contains_key("fresh"));
    complete_publication(&mut runtime, &request, &Vec::new(), &Vec::new())
        .expect("nothing is left to cover");
    assert_eq!(runtime.schema_epoch, 11);
    let owner = runtime.cold.get("kept").expect("still there");
    assert!(matches!(owner.events[0], ColumnEvent::Renamed { .. }));
}

#[test]
fn failed_transition_asks_for_recovery() {
    let mut runtime =
        RuntimeCatalog { state: published(&["t"]), cold: NameMap::new(), schema_epoch: 0 };
    let mut request = empty_request(4);
    request.schema_changes.push(PendingSchemaChange {
        table_name: "T".to_string(),
        schema: ddl_schema("t"),
        expected_catalog_schema: ddl_schema("t"),
        physical_transition: Some(SchemaPhysicalTransition::RenameColumn {
            old_name: "Owner".to_string(),
            new_name: "Holder".to_string(),
        }),
        requires_row_normalization: false,
        verdicts: accepted(),
    });
    let outcomes = PublishOutcomes {
        transitions: vec![Err("torn".to_string())],
        key_indexes: vec![Ok(())],
        index_renames: Vec::new(),
        catalog: Ok(()),
    };
    let prepared = BoundCatalog { schemas: vec![ddl_schema("t")], views: Vec::new() };
    let error =
        publish_transactional_ddl(&mut runtime, &request, &vec![0], Some(prepared), &outcomes)
            .expect_err("rows were not rewritten");
    assert_eq!(
        uncertain_message(&error),
        "transaction 4 committed ALTER TABLE 't' but physical publication requires recovery: torn"
    );
    assert!(runtime.state.schemas.contains_key("t"));
    assert_eq!(runtime.schema_epoch, 0);
}

fn created_request() -> (RuntimeCatalog, DdlRequest) {
    let mut state = published(&["old"]);
    state.pending.insert(
        "fresh".to_string(),
        PendingTable { owner_txn_id: 5, schema: ddl_schema("fresh"), indexes: Vec::new() },
    );
    let mut request = empty_request(5);
    request.created_tables.push(CreatedTable { name: "fresh".to_string(), verdicts: accepted() });
    request.dropped_tables.push(DroppedTable { name: "old".to_string(), schema: ddl_schema("old") });
    (RuntimeCatalog { state, cold: NameMap::new(), schema_epoch: 1 }, request)
}

#[test]
fn tables_stand_where_the_catalog_failed() {
    let faults = vec![
        (CatalogFault::Pin("gone".to_string()), "catalog pin failed: gone"),
        (CatalogFault::Overflow, "catalog generation overflow during publication"),
        (CatalogFault::Metadata("odd".to_string()), "catalog metadata rejected: odd"),
        (CatalogFault::Successor("torn".to_string()), "catalog successor rejected: torn"),
    ];
    for (fault, text) in faults {
        assert_eq!(internal_message(&catalog_publication_failed(&fault)), text);
        let (mut runtime, request) = created_request();
        let outcomes = PublishOutcomes {
            transitions: Vec::new(),
            key_indexes: Vec::new(),
            index_renames: Vec::new(),
            catalog: Err(fault),
        };
        let prepared = BoundCatalog { schemas: vec![ddl_schema("fresh")], views: Vec::new() };
        let error = publish_transactional_ddl(
            &mut runtime,
            &request,
            &Vec::new(),
            Some(prepared),
            &outcomes,
        )
        .expect_err("the catalog stands still");
        assert_eq!(internal_message(&error), text);
        assert!(runtime.state.schemas.contains_key("fresh"));
        assert!(!runtime.state.schemas.contains_key("old"));
        assert!(!runtime.state.pending.contains_key("fresh"));
        assert_eq!(runtime.schema_epoch, 1);
    }
    let uncertain = catalog_publication_failed(&CatalogFault::Runtime("late".to_string()));
    assert_eq!(
        uncertain_message(&uncertain),
        "catalog runtime publication requires recovery: late"
    );
}

#[test]
fn schemas_before_a_refused_key_are_published() {
    let mut runtime =
        RuntimeCatalog { state: published(&["a", "b"]), cold: NameMap::new(), schema_epoch: 7 };
    let mut request = empty_request(6);
    for name in ["a", "b"] {
        let mut changed = ddl_schema(name);
        changed.columns[1].name = "Holder".to_string();
        changed.columns[0].primary_key = false;
        changed.columns[1].primary_key = true;
        request.schema_changes.push(PendingSchemaChange {
            table_name: name.to_string(),
            schema: changed,
            expected_catalog_schema: ddl_schema(name),
            physical_transition: None,
            requires_row_normalization: false,
            verdicts: accepted(),
        });
    }
    let outcomes = PublishOutcomes {
        transitions: vec![Ok(Vec::new()), Ok(Vec::new())],
        key_indexes: vec![Ok(()), Err(Error::EngineNotOpen)],
        index_renames: Vec::new(),
        catalog: Ok(()),
    };
    let prepared = BoundCatalog { schemas: Vec::new(), views: Vec::new() };
    let end = publish_transactional_ddl(
        &mut runtime,
        &request,
        &vec![0, 1],
        Some(prepared),
        &outcomes,
    );
    assert!(matches!(end, Err(Error::EngineNotOpen)));
    let held = |name: &str| runtime.state.schemas.get(name).expect("there").columns[1].name.clone();
    assert_eq!((held("a").as_str(), held("b").as_str()), ("Holder", "Owner"));
    let stored = |name: &str| runtime.state.stores.get(name).expect("there");
    assert_eq!(stored("a").schema.columns[1].name, "Holder");
    assert_eq!(stored("b").schema.columns[1].name, "Holder");
}

#[test]
fn catalog_generations_count_up() {
    let next = next_catalog_generation(4, 100, 90).expect("room");
    assert_eq!((next.generation, next.snapshot_lsn), (5, 100));
    let next = next_catalog_generation(4, 100, 110).expect("room");
    assert_eq!(next.snapshot_lsn, 110);
    assert!(next_catalog_generation(u64::MAX, 0, 0).is_err());
}

#[test]
fn uncovered_indexes_are_reported_together() {
    let mut runtime =
        RuntimeCatalog { state: published(&["t"]), cold: NameMap::new(), schema_epoch: 0 };
    let mut request = empty_request(9);
    request.has_catalog_mutation = false;
    request.indexes = vec![definition(Some(IndexType::BTree)), definition(Some(IndexType::Hash))];
    let owner = ColdOwner { has_segments: true, populated: NameMap::new(), events: Vec::new() };
    runtime.cold.insert("t".to_string(), owner);
    assert!(indexes_needing_fallback(&request, true, &runtime, &Vec::new()).is_empty());
    request.has_catalog_mutation = true;
    assert_eq!(indexes_needing_fallback(&request, true, &runtime, &Vec::new()), vec![0, 1]);
    assert!(indexes_needing_fallback(&request, false, &runtime, &Vec::new()).is_empty());
    let published_tables = vec!["t".to_string()];
    assert!(indexes_needing_fallback(&request, true, &runtime, &published_tables).is_empty());
    complete_publication(&mut runtime, &request, &Vec::new(), &Vec::new()).expect("all covered");
    assert_eq!(runtime.schema_epoch, 1);
    let mut idle = empty_request(9);
    idle.has_catalog_mutation = false;
    complete_publication(&mut runtime, &idle, &Vec::new(), &Vec::new()).expect("nothing to do");
    assert_eq!(runtime.schema_epoch, 1);
    let both = vec![0, 1];
    let completions =
        vec![IndexCompletion::Covered, IndexCompletion::Failed("lost".to_string())];
    let error = complete_publication(&mut runtime, &request, &both, &completions)
        .expect_err("one index has no cold rows");
    assert!(uncertain_message(&error).starts_with("transaction 9 committed CREATE INDEX"));
    assert!(uncertain_message(&error).ends_with("t.i: lost"));
    let completions = vec![
        IndexCompletion::Failed("lost".to_string()),
        IndexCompletion::NoTable(Error::EngineNotOpen),
    ];
    let error = complete_publication(&mut runtime, &request, &both, &completions)
        .expect_err("the table is gone");
    assert!(matches!(error, Error::EngineNotOpen));
}
