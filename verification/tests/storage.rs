//! Publication of generations, snapshots, restore, and runtime statistics.
use radixdb_engine::compaction::abort::compaction_publication_is_stale;
use radixdb_engine::compaction::cooldown::CooldownSnapshot;
use radixdb_engine::error::Error;
use radixdb_engine::publication::catalog::data_column_policy;
use radixdb_engine::publication::catalog::table_accelerators;
use radixdb_engine::publication::catalog::table_columns;
use radixdb_engine::publication::catalog::AccessMethod;
use radixdb_engine::publication::catalog::CatalogIndex;
use radixdb_engine::publication::catalog::IndexNullsOrder;
use radixdb_engine::publication::catalog::IndexSortDirection;
use radixdb_engine::publication::catalog::TypeObject;
use radixdb_engine::publication::catalog::CatalogObject;
use radixdb_engine::publication::catalog::CatalogPayload;
use radixdb_engine::publication::catalog::DataColumnSpec;
use radixdb_engine::publication::catalog::DataValueEncoding;
use radixdb_engine::publication::control::compaction_publication_error;
use radixdb_engine::publication::control::data_segment_publication_error;
use radixdb_engine::publication::control::footer_sha;
use radixdb_engine::publication::control::inactive_slot;
use radixdb_engine::publication::control::process_id;
use radixdb_engine::publication::control::publication_transaction_high_water;
use radixdb_engine::publication::control::publish_checkpoint_generation;
use radixdb_engine::publication::control::successor_control;
use radixdb_engine::publication::control::unix_time_nanos;
use radixdb_engine::publication::control::validate_catalog_identity;
use radixdb_engine::publication::control::CatalogMeta;
use radixdb_engine::publication::control::CatalogRoot;
use radixdb_engine::publication::control::CheckpointStep;
use radixdb_engine::publication::control::ControlRecord;
use radixdb_engine::publication::control::ControlSlotIndex;
use radixdb_engine::publication::control::PublisherFault;
use radixdb_engine::publication::control::StagingCleanup;
use radixdb_engine::publication::control::WalReplayFloor;
use radixdb_engine::publication::data::artifact_shape;
use radixdb_engine::publication::data::begin_compaction_publication;
use radixdb_engine::publication::data::check_locator;
use radixdb_engine::publication::data::normalized_source_row;
use radixdb_engine::publication::data::publish_data_segment;
use radixdb_engine::publication::data::seal_generation;
use radixdb_engine::publication::data::sealed_descriptor;
use radixdb_engine::publication::data::CompactionRequest;
use radixdb_engine::publication::data::MergedRange;
use radixdb_engine::publication::data::SealRequest;
use radixdb_engine::publication::data::WrittenArtifact;
use radixdb_engine::publication::data::WrittenSegment;
use radixdb_engine::publication::definition::definition_message;
use radixdb_engine::publication::definition::index_definition_sha256;
use radixdb_engine::publication::definition::EdgeDefinition;
use radixdb_engine::publication::definition::IndexDefinition;
use radixdb_engine::publication::generation::checkpoint_generation;
use radixdb_engine::publication::generation::retired_logs;
use radixdb_engine::publication::generation::GenerationRequest;
use radixdb_engine::publication::indexes::install_published_indexes;
use radixdb_engine::publication::indexes::InstalledTable;
use radixdb_engine::publication::indexes::check_index_catalog;
use radixdb_engine::publication::indexes::index_change;
use radixdb_engine::publication::indexes::index_generation;
use radixdb_engine::publication::indexes::publish_transactional_indexes;
use radixdb_engine::publication::indexes::swaps_cold_copies;
use radixdb_engine::publication::indexes::CreatedIndex;
use radixdb_engine::publication::indexes::FoundIndex;
use radixdb_engine::publication::indexes::IndexRequest;
use radixdb_engine::publication::indexes::IndexedTable;
use radixdb_engine::publication::manifests::plan_table_manifest;
use radixdb_engine::publication::manifests::stage_checkpoint_tombstones;
use radixdb_engine::publication::manifests::stage_tombstone_replacement;
use radixdb_engine::publication::manifests::tombstone_change;
use radixdb_engine::publication::manifests::tombstone_chunks;
use radixdb_engine::publication::manifests::CatalogTableState;
use radixdb_engine::publication::manifests::ManifestPlan;
use radixdb_engine::publication::manifests::TableSource;
use radixdb_engine::publication::manifests::TombstoneOwner;
use radixdb_engine::publication::manifests::WrittenTombstones;
use radixdb_engine::publication::segments::checkpoint_row_membership_changes;
use radixdb_engine::publication::segments::merge_segment_changes;
use radixdb_engine::publication::segments::ArtifactRef;
use radixdb_engine::publication::segments::CompactionInput;
use radixdb_engine::publication::segments::RuntimeArtifact;
use radixdb_engine::publication::segments::RuntimeSegment;
use radixdb_engine::publication::segments::SegmentDescriptor;
use radixdb_engine::publication::segments::TableMembership;
use radixdb_engine::publication::segments::TableSegmentChange;
use radixdb_engine::recovery::artifacts::SegmentKind;
use radixdb_engine::recovery::artifacts::SegmentTier;
use radixdb_engine::runtime::concurrency::CompactionJobConcurrencyState;
use radixdb_engine::runtime::cost::EngineCompactionCostState;
use radixdb_engine::runtime::maintenance::runtime_unix_millis;
use radixdb_engine::runtime::maintenance::EngineMaintenanceState;
use radixdb_engine::runtime::operation::RuntimeOperationState;
use radixdb_engine::runtime::stats::hot_totals;
use radixdb_engine::runtime::stats::runtime_stats_snapshot;
use radixdb_engine::runtime::stats::staging_totals;
use radixdb_engine::runtime::stats::ColdOwner;
use radixdb_engine::runtime::stats::ColdSizes;
use radixdb_engine::runtime::stats::HotSample;
use radixdb_engine::runtime::stats::RuntimeFlags;
use radixdb_engine::runtime::stats::RuntimeSamples;
use radixdb_engine::runtime::stats::SnapshotCounter;
use radixdb_engine::runtime::stats::TransactionSample;
use radixdb_engine::runtime::stats::RUNTIME_STATS_MAX_TABLES;
use radixdb_engine::schema::DataType;
use radixdb_engine::snapshot::components::component_bit;
use radixdb_engine::snapshot::components::component_index;
use radixdb_engine::snapshot::components::component_name;
use radixdb_engine::snapshot::components::components_to_move;
use radixdb_engine::snapshot::components::existing_component_mask;
use radixdb_engine::snapshot::components::reconcile_component;
use radixdb_engine::snapshot::components::remove_restore_path_if_present;
use radixdb_engine::snapshot::components::require_absent_restore_path;
use radixdb_engine::snapshot::components::validate_restore_component;
use radixdb_engine::snapshot::components::validate_restore_staging;
use radixdb_engine::snapshot::components::ComponentRollback;
use radixdb_engine::snapshot::components::PathStatus;
use radixdb_engine::snapshot::components::Removal;
use radixdb_engine::snapshot::components::StagedEntry;
use radixdb_engine::snapshot::components::COMPONENT_COUNT;
use radixdb_engine::snapshot::members::check_snapshot_cancelled;
use radixdb_engine::snapshot::members::member_source;
use radixdb_engine::snapshot::members::physical_member_sources;
use radixdb_engine::snapshot::members::ArtifactFile;
use radixdb_engine::snapshot::members::GenerationFiles;
use radixdb_engine::snapshot::members::NamedFile;
use radixdb_engine::snapshot::members::SnapshotCopy;
use radixdb_engine::snapshot::members::SnapshotMemberKind;
use radixdb_engine::snapshot::select::requested_snapshot;
use radixdb_engine::snapshot::select::retain_latest_snapshots;
use radixdb_engine::snapshot::select::inspect_entry;
use radixdb_engine::snapshot::select::select_snapshot;
use radixdb_engine::snapshot::select::FoundEntry;
use radixdb_engine::snapshot::select::SnapshotEntry;
use radixdb_engine::snapshot::select::SnapshotKey;
use radixdb_engine::snapshot::state::PhysicalRestorePhase;
use radixdb_engine::snapshot::state::PhysicalRestoreState;
use radixdb_engine::snapshot::swap::check_drained;
use radixdb_engine::snapshot::swap::orphan_identity;
use radixdb_engine::snapshot::swap::prepare_restore_staging;
use radixdb_engine::snapshot::swap::reconcile_physical_restore;
use radixdb_engine::snapshot::swap::swap_physical_restore_failure;
use radixdb_engine::snapshot::swap::write_physical_restore_state;
use radixdb_engine::snapshot::swap::Reconciliation;
use radixdb_engine::snapshot::swap::RestoreAdmission;
use radixdb_engine::snapshot::swap::RestoreSwap;
use radixdb_engine::snapshot::swap::SwapFailure;
use radixdb_engine::snapshot::swap::SwapStage;

const STATE_BYTES: [u8; 16] = [
    0x52, 0x44, 0x58, 0x52, 0x01, 0x00, 0x00, 0x00,
    0x02, 0x00, 0x0d, 0x00, 0x85, 0x71, 0x6e, 0xe8,
];

const DIGEST: [u8; 32] = [
    0x31, 0xff, 0xfa, 0x3c, 0xd2, 0xdf, 0x9e, 0xdc,
    0x00, 0xe5, 0xf9, 0x07, 0x7a, 0xb6, 0xdb, 0x5e,
    0x3d, 0x15, 0xff, 0xb1, 0xfc, 0x44, 0x62, 0x24,
    0x66, 0x19, 0x61, 0xf3, 0x13, 0x0c, 0xed, 0x89,
];

fn told(error: &Error) -> String {
    match error {
        Error::Internal { message } => message.clone(),
        Error::InvalidArgument(message) => message.clone(),
        Error::NotSupported(message) => message.clone(),
        other => panic!("unexpected error: {other:?}"),
    }
}

fn artifact(id: u128) -> ArtifactRef {
    ArtifactRef { id, byte_length: 100 }
}

fn descriptor(id: u128) -> SegmentDescriptor {
    SegmentDescriptor {
        id,
        kind: SegmentKind::Rows,
        tier: SegmentTier::L0,
        min_transaction_id: 1,
        max_transaction_id: id as u64,
        row_count: 2,
        first_row_id: 1,
        last_row_id: 2,
        data: artifact(id + 1000),
        index: None,
    }
}

fn control() -> ControlRecord {
    ControlRecord {
        slot: ControlSlotIndex::Zero,
        database_generation: 5,
        database_id: 1,
        manifest_id: 2,
        catalog: CatalogRoot { id: 3, generation: 4 },
        wal_replay_floor: WalReplayFloor { generation: 6, lsn: 70 },
    }
}

fn meta() -> CatalogMeta {
    CatalogMeta { database_id: 1, catalog_id: 3, catalog_generation: 4 }
}

#[test]
fn publication_alternates_the_control_slots() {
    assert_eq!(inactive_slot(ControlSlotIndex::Zero), ControlSlotIndex::One);
    assert_eq!(inactive_slot(ControlSlotIndex::One), ControlSlotIndex::Zero);
    let next = successor_control(
        control(),
        6,
        9,
        CatalogRoot { id: 3, generation: 4 },
        WalReplayFloor { generation: 7, lsn: 80 },
    );
    assert_eq!(next.slot, ControlSlotIndex::One);
    assert_eq!((next.database_generation, next.manifest_id, next.database_id), (6, 9, 1));
    assert!(validate_catalog_identity(meta(), control()).is_ok());
    let foreign = CatalogMeta { database_id: 8, ..meta() };
    assert!(validate_catalog_identity(foreign, control()).is_err());
}

#[test]
fn checkpoint_moves_the_floor_forward() {
    let step = publish_checkpoint_generation(80, 7, true, control(), Ok(6), meta());
    match step.expect("ahead of the floor") {
        CheckpointStep::Publish { target_generation, floor } => {
            assert_eq!((target_generation, floor.generation, floor.lsn), (6, 7, 80));
        }
        CheckpointStep::Nothing => panic!("the floor moves"),
    }
    let error = publish_checkpoint_generation(0, 7, true, control(), Ok(6), meta())
        .expect_err("no boundary");
    assert_eq!(told(&error), "physical checkpoint requires a non-zero durable WAL boundary");
    let error = publish_checkpoint_generation(60, 7, true, control(), Ok(6), meta())
        .expect_err("backwards");
    assert_eq!(told(&error), "physical checkpoint WAL boundary regresses below CONTROL");
    let error = publish_checkpoint_generation(80, 7, false, control(), Ok(6), meta())
        .expect_err("no publisher");
    assert_eq!(told(&error), "physical generation publisher is unavailable during checkpoint");
    assert_eq!(publication_transaction_high_water(9, Some(12)), 12);
    assert_eq!(publication_transaction_high_water(9, Some(-1)), 9);
    assert_eq!(publication_transaction_high_water(9, None), 9);
}

#[test]
fn publication_faults_tell_a_lost_race() {
    assert!(data_segment_publication_error(PublisherFault::ForeignSource, "x").is_stale_source());
    assert!(!data_segment_publication_error(PublisherFault::Other, "x").is_stale_source());
    let stale = compaction_publication_error(PublisherFault::StaleBoundary, "x");
    assert!(compaction_publication_is_stale(&stale));
    let other = compaction_publication_error(PublisherFault::Other, "x");
    assert_eq!(told(&other), "physical generation publication failed: x");
    let mut staging = StagingCleanup::armed("dir".to_string());
    assert!(staging.armed);
    staging.disarm();
    assert_eq!(staging.finish(), None);
    assert_eq!(StagingCleanup::armed("dir".to_string()).finish(), Some("dir".to_string()));
    assert_eq!(unix_time_nanos(u128::MAX), u64::MAX);
    assert_eq!(process_id(Some(7)), 7);
    assert!(footer_sha(&[0; 8]).is_err());
}

#[test]
fn segment_changes_of_a_table_are_joined() {
    let mut all = vec![TableSegmentChange::append(1, descriptor(10))];
    let more = vec![
        TableSegmentChange {
            table_id: 1,
            additions: vec![descriptor(11)],
            removals: vec![4],
            tombstone_ack: None,
        },
        TableSegmentChange::append(2, descriptor(20)),
    ];
    merge_segment_changes(&mut all, more).expect("no conflict");
    assert_eq!(all.len(), 2);
    let first = all.iter().find(|c| c.table_id == 1).expect("joined");
    assert_eq!(first.additions.len(), 2);
    assert_eq!(first.removals, vec![4]);
    let again = vec![TableSegmentChange {
        table_id: 1,
        additions: Vec::new(),
        removals: vec![4],
        tombstone_ack: None,
    }];
    let error = merge_segment_changes(&mut all, again).expect_err("twice");
    assert_eq!(told(&error), "checkpoint segment change removes one segment twice");
}

fn live(segment_id: u128) -> RuntimeSegment {
    RuntimeSegment {
        artifact: Some(RuntimeArtifact {
            table_id: 1,
            kind: SegmentKind::Rows,
            segment_id,
            id_text: segment_id.to_string(),
        }),
    }
}

#[test]
fn checkpoint_removes_what_the_runtime_lost() {
    let table = |runtime: Vec<RuntimeSegment>| {
        vec![TableMembership {
            table_id: 1,
            name: Some("t".to_string()),
            runtime,
            durable: vec![descriptor(10), descriptor(11)],
        }]
    };
    let changes = checkpoint_row_membership_changes(&table(vec![live(10)])).expect("a subset");
    assert_eq!(changes.len(), 1);
    assert_eq!(changes[0].removals, vec![11]);
    let same = checkpoint_row_membership_changes(&table(vec![live(10), live(11)]));
    assert!(same.expect("equal").is_empty());
    let error = checkpoint_row_membership_changes(&table(vec![live(12)])).expect_err("unknown");
    assert_eq!(
        told(&error),
        "checkpoint table 't' contains runtime segment 12 absent from CONTROL"
    );
    let bare = vec![RuntimeSegment { artifact: None }];
    let error = checkpoint_row_membership_changes(&table(bare)).expect_err("no artifact");
    assert_eq!(told(&error), "checkpoint table 't' has a row segment without canonical DATA");
}

#[test]
fn manifests_keep_what_was_not_removed() {
    let table = CatalogTableState {
        table_id: 1,
        source: Some(TableSource {
            row_id_high_water: 50,
            next_segment_sequence: 3,
            segments: vec![descriptor(10), descriptor(11)],
            reference: Some(77),
        }),
        auto_increment: None,
    };
    assert!(matches!(
        plan_table_manifest(&table, &Vec::new()),
        Ok(ManifestPlan::Reuse { reference: 77 })
    ));
    let change = vec![TableSegmentChange {
        table_id: 1,
        additions: vec![descriptor(12)],
        removals: vec![10],
        tombstone_ack: None,
    }];
    match plan_table_manifest(&table, &change).expect("a new manifest") {
        ManifestPlan::Write { segments, next_segment_sequence, row_id_high_water } => {
            let ids: Vec<u128> = segments.iter().map(|s| s.id).collect();
            assert_eq!(ids, vec![11, 12]);
            assert_eq!(next_segment_sequence, 4);
            assert_eq!(row_id_high_water, 50);
        }
        other => panic!("unexpected plan: {other:?}"),
    }
}

#[test]
fn tombstones_are_replaced_in_order() {
    let mut dead = descriptor(12);
    dead.kind = SegmentKind::Tombstones;
    let source = vec![descriptor(10), dead];
    let plan = stage_tombstone_replacement(&source, vec![(9, 4), (2, 7)]).expect("visible");
    assert_eq!(plan.removals, vec![12]);
    assert_eq!(plan.rows, vec![(2, 7), (9, 4)]);
    let error = stage_tombstone_replacement(&source, vec![(9, 0)]).expect_err("never visible");
    assert_eq!(told(&error), "committed tombstone has a zero visibility sequence");
    let chunks = tombstone_chunks(&vec![(1, 5), (2, 3), (3, 9)], 2);
    assert_eq!(chunks.len(), 2);
    assert_eq!((chunks[0].min_transaction_id, chunks[0].max_transaction_id), (3, 5));
    assert_eq!((chunks[1].first_row_id, chunks[1].last_row_id, chunks[1].row_count), (3, 3, 1));
    let dead = |id: u128, path: &str| WrittenTombstones {
        segment_id: id,
        row_group_rows: Ok(65_536),
        artifact: artifact(id),
        path: path.to_string(),
        locator: "a".to_string(),
    };
    let change = tombstone_change(1, vec![12], &chunks, &vec![dead(30, "a"), dead(31, "a")], Some(8))
        .expect("all in place");
    assert_eq!((change.removals, change.tombstone_ack), (vec![12], Some(8)));
    assert_eq!(change.additions[0].kind, SegmentKind::Tombstones);
    assert_eq!((change.additions[1].id, change.additions[1].first_row_id), (31, 3));
    assert_eq!(change.additions[0].data, artifact(30));
    let error = tombstone_change(1, Vec::new(), &chunks, &vec![dead(30, "a"), dead(31, "b")], None)
        .expect_err("elsewhere");
    assert_eq!(told(&error), "tombstone writer returned a non-canonical DATA locator");
    let broken = WrittenTombstones { row_group_rows: Err("none".to_string()), ..dead(30, "b") };
    let error = tombstone_change(1, Vec::new(), &chunks, &vec![broken, dead(31, "b")], None)
        .expect_err("no group size");
    assert_eq!(told(&error), "physical generation publication failed: none");
    let owner = |id: u128, dirty: bool| TombstoneOwner {
        table_name: format!("t{id}"),
        catalog_id: Some(Ok(id)),
        is_listed: true,
        is_dirty: dirty,
    };
    let owners = vec![owner(9, true), owner(3, true), owner(5, false)];
    assert_eq!(stage_checkpoint_tombstones(&owners).expect("valid"), vec![3, 9]);
    let broken = vec![TombstoneOwner { catalog_id: Some(Err("zero".to_string())), ..owner(1, true) }];
    let error = stage_checkpoint_tombstones(&broken).expect_err("no identity");
    assert_eq!(
        told(&error),
        "table 't1' has invalid catalog identity during tombstone publication: zero"
    );
}

fn pack_definition(predicate: Option<&str>) -> IndexDefinition {
    IndexDefinition {
        revision: vec![1, 0, 0, 0, 0, 0, 0, 0],
        access_method_tag: vec![1, 0],
        unique: true,
        key_column_ids: vec![[12; 16]],
        include_column_ids: Vec::new(),
        expression_sql: None,
        predicate_sql: predicate.map(|text| text.to_string()),
        hnsw: None,
        edges: Vec::new(),
    }
}

fn catalog_objects(predicate: Option<&str>) -> Vec<CatalogObject> {
    let column = |id: u128| CatalogObject {
        id,
        parent_id: Some(1),
        name: format!("c{id}"),
        payload: CatalogPayload::Column {
            data_type: DataType::Integer,
            nullable: false,
            type_object: TypeObject::BuiltIn,
        },
        depends_on: Vec::new(),
    };
    vec![
        CatalogObject {
            id: 1,
            parent_id: None,
            name: "t".to_string(),
            payload: CatalogPayload::Table { column_ids: vec![11, 12], index_ids: vec![21] },
            depends_on: Vec::new(),
        },
        column(11),
        column(12),
        CatalogObject {
            id: 21,
            parent_id: Some(1),
            name: "i".to_string(),
            payload: CatalogPayload::Index(CatalogIndex {
                access_method: AccessMethod::Btree,
                key_column_ids: vec![12],
                has_operator_class: false,
                definition: pack_definition(predicate),
            }),
            depends_on: vec![31],
        },
        CatalogObject {
            id: 31,
            parent_id: Some(1),
            name: "u".to_string(),
            payload: CatalogPayload::KeyConstraint,
            depends_on: Vec::new(),
        },
    ]
}

#[test]
fn tables_name_their_columns_and_accelerators() {
    let objects = catalog_objects(None);
    let columns = table_columns(&objects, 1).expect("two columns");
    assert_eq!(columns.len(), 2);
    assert_eq!(columns[1].column_id, 12);
    assert!(table_columns(&objects, 11).is_err());
    assert!(table_columns(&objects, 99).is_err());
    let pack = table_accelerators(&objects, 1).expect("valid").expect("one index");
    assert_eq!(pack.len(), 1);
    assert!(pack[0].unique && pack[0].constraint_owned && pack[0].ordered);
    assert_eq!(pack[0].key_columns[0].column_id, 12);
    assert_eq!(pack[0].key_columns[0].direction, IndexSortDirection::Ascending);
    assert_eq!(pack[0].key_columns[0].nulls, IndexNullsOrder::Last);
    assert_eq!(pack[0].definition_sha256, index_definition_sha256(&pack_definition(None)));
    let filtered = catalog_objects(Some("x > 0"));
    assert!(table_accelerators(&filtered, 1).expect("valid").is_none());
    let text = DataColumnSpec { column_id: 1, data_type: DataType::Text, nullable: true };
    assert_eq!(data_column_policy(text), DataValueEncoding::Adaptive);
    assert_eq!(data_column_policy(columns[0]), DataValueEncoding::Plain);
}

#[test]
fn artifacts_have_a_bounded_shape() {
    let shape = artifact_shape(100_000, 3, &Ok(65_536)).expect("small");
    assert_eq!((shape.row_count, shape.column_count, shape.row_group_count), (100_000, 3, 2));
    let error = artifact_shape(u64::MAX, 3, &Ok(1)).expect_err("too many groups");
    assert_eq!(told(&error), "DATA row-group count exceeds u32");
    assert_eq!(normalized_source_row(vec![1, 2, 3], vec![0, 0]), vec![1, 2]);
    assert_eq!(normalized_source_row(vec![1], vec![8, 9]), vec![1, 9]);
    assert!(check_locator("DATA", "a", "a").is_ok());
    let error = check_locator("DATA", "a", "b").expect_err("elsewhere");
    assert_eq!(told(&error), "DATA writer returned a non-canonical artifact locator");
}

fn seal(row_ids: Vec<u64>) -> SealRequest {
    SealRequest {
        row_ids,
        publisher: true,
        control: control(),
        target_generation: Ok(6),
        meta: Ok(meta()),
        table: Some(Ok(1)),
        objects: catalog_objects(None),
        row_group_rows: Ok(65_536),
        log_high_water: Some(40),
    }
}

#[test]
fn sealed_rows_become_a_segment() {
    let sealed = publish_data_segment("t", seal(vec![3, 7, 12])).expect("rows to seal");
    assert_eq!(sealed.columns.len(), 2);
    assert_eq!(sealed.accelerators.expect("one index")[0].index_id, 21);
    let plan = sealed.plan;
    assert_eq!(plan.shape.column_count, 2);
    let strange = SealRequest { table: Some(Ok(11)), ..seal(vec![1]) };
    assert_eq!(
        told(&publish_data_segment("t", strange).expect_err("a column").error),
        "sealed catalog object is not a table"
    );
    assert_eq!((plan.table_id, plan.target_generation), (1, 6));
    assert_eq!(plan.shape.row_count, 3);
    let made = sealed_descriptor(plan, 55, artifact(9), None);
    assert_eq!((made.id, made.first_row_id, made.last_row_id, made.row_count), (55, 3, 12, 3));
    assert_eq!(made.tier, SegmentTier::L0);
    let error = publish_data_segment("t", seal(Vec::new())).expect_err("nothing to seal");
    assert_eq!(told(&error.error), "cannot publish an empty DATA segment");
    let closed = SealRequest { publisher: false, ..seal(vec![1]) };
    let error = publish_data_segment("t", closed).expect_err("no publisher");
    assert_eq!(
        told(&error.into_error()),
        "physical generation publisher is unavailable during seal"
    );
    let gone = SealRequest { table: None, ..seal(vec![1]) };
    assert!(matches!(
        publish_data_segment("t", gone).expect_err("no table").error,
        Error::TableNotFound(_)
    ));
}

fn merge_request(inputs: Vec<u128>) -> CompactionRequest {
    CompactionRequest {
        inputs: inputs
            .into_iter()
            .map(|id| CompactionInput { artifact: Some((id, artifact(id + 1000))) })
            .collect(),
        publisher: true,
        control: control(),
        target_generation: Ok(6),
        meta: Ok(meta()),
        table: Some(Ok(1)),
        manifest: Some(vec![descriptor(10), descriptor(11), descriptor(12)]),
        objects: catalog_objects(None),
    }
}

fn selected(segments: &[SegmentDescriptor]) -> GenerationRequest {
    GenerationRequest {
        control: control(),
        meta: meta(),
        manifest_id: 8,
        tables: vec![CatalogTableState {
            table_id: 1,
            source: Some(TableSource {
                row_id_high_water: 50,
                next_segment_sequence: 3,
                segments: segments.to_vec(),
                reference: Some(77),
            }),
            auto_increment: None,
        }],
        persisted_high_water: 9,
        log_high_water: Some(12),
    }
}

#[test]
fn compaction_replaces_exactly_its_inputs() {
    let mut job = begin_compaction_publication("t", merge_request(vec![10, 11])).expect("planned");
    assert_eq!(job.removals, vec![10, 11]);
    assert_eq!(job.columns.len(), 2);
    assert_eq!(job.accelerators.as_ref().expect("one index").len(), 1);
    assert_eq!((job.min_transaction_id, job.max_transaction_id), (1, 11));
    let merged = job
        .plan_rows(MergedRange {
            row_count: 3,
            first: Ok(1),
            last: Ok(9),
            row_group_rows: Ok(65_536),
        })
        .expect("rows");
    let staged = job.stage_rows(merged, 99, artifact(5), Some(artifact(6)));
    assert_eq!((staged.row_count, staged.physical_bytes, staged.has_index), (3, 200, true));
    let now = vec![descriptor(10), descriptor(11), descriptor(12), descriptor(13)];
    let done = job
        .publish(&selected(&now), Ok(7), Some(&now), None)
        .expect("inputs are unchanged");
    assert_eq!(done.change.removals, vec![10, 11]);
    assert_eq!(done.change.additions.len(), 1);
    assert_eq!(done.expected_removals.len(), 2);
    assert_eq!(done.prebuilt_artifacts, vec![artifact(5), artifact(6)]);
    assert_eq!(done.generation.control.database_generation, 7);
    assert_eq!(done.generation.control.catalog, control().catalog);
    match &done.generation.manifests[0].1 {
        ManifestPlan::Write { segments, .. } => {
            let ids: Vec<u128> = segments.iter().map(|s| s.id).collect();
            assert_eq!(ids, vec![12, 13, 99]);
        }
        other => panic!("unexpected plan: {other:?}"),
    }
    let moved = vec![descriptor(10), descriptor(12)];
    let error = job
        .publish(&selected(&moved), Ok(7), Some(&moved), None)
        .expect_err("an input vanished");
    assert!(compaction_publication_is_stale(&error));
    let error =
        job.publish(&selected(&now), Ok(7), None, None).expect_err("the table vanished");
    assert!(compaction_publication_is_stale(&error));
    let stale = TableSegmentChange {
        table_id: 1,
        additions: Vec::new(),
        removals: vec![77],
        tombstone_ack: None,
    };
    let error = job
        .publish(&selected(&now), Ok(7), Some(&now), Some(stale))
        .expect_err("a tombstone segment vanished");
    assert!(compaction_publication_is_stale(&error));
    let error = job
        .publish(&selected(&now), Err("full".to_string()), Some(&now), None)
        .expect_err("no generation is left");
    assert_eq!(told(&error), "physical generation publication failed: full");
    job.published();
    assert!(!job.cleanup_staging);
    let error = begin_compaction_publication("t", merge_request(vec![])).expect_err("no inputs");
    assert_eq!(told(&error), "compaction publication has no inputs");
    let error = begin_compaction_publication("t", merge_request(vec![10, 10]))
        .expect_err("one input twice");
    assert_eq!(told(&error), "compaction input repeats a physical segment identity");
    let error = begin_compaction_publication("t", merge_request(vec![50])).expect_err("unknown");
    assert_eq!(told(&error), "compaction input is absent from physical table manifest");
}

fn written(id: u128, path: &str) -> WrittenArtifact {
    WrittenArtifact { artifact: artifact(id), path: path.to_string(), locator: "a".to_string() }
}

fn written_segment(data: &str, index: Option<&str>) -> WrittenSegment {
    WrittenSegment {
        segment_id: 55,
        data: written(9, data),
        index: index.map(|path| written(10, path)),
    }
}

#[test]
fn sealed_generation_keeps_what_it_had() {
    let plan = publish_data_segment("t", seal(vec![3, 120])).expect("rows to seal").plan;
    let mut q = selected(&[descriptor(10)]);
    q.tables.push(CatalogTableState {
        table_id: 2,
        source: Some(TableSource {
            row_id_high_water: 1,
            next_segment_sequence: 2,
            segments: vec![descriptor(20)],
            reference: Some(78),
        }),
        auto_increment: Some(5),
    });
    let made = seal_generation(plan, &written_segment("a", Some("a")), &q).expect("all in place");
    assert_eq!(made.descriptor.index, Some(artifact(10)));
    assert_eq!(made.descriptor.max_transaction_id, 40);
    assert_eq!(made.generation.transaction_high_water, 12);
    assert!(!made.generation.stages_catalog);
    assert_eq!(
        made.generation.control,
        ControlRecord {
            slot: ControlSlotIndex::One,
            database_generation: 6,
            manifest_id: 8,
            ..control()
        }
    );
    match &made.generation.manifests[0].1 {
        ManifestPlan::Write { segments, row_id_high_water, next_segment_sequence } => {
            let ids: Vec<u128> = segments.iter().map(|s| s.id).collect();
            assert_eq!(ids, vec![10, 55]);
            assert_eq!((*row_id_high_water, *next_segment_sequence), (120, 4));
        }
        other => panic!("unexpected plan: {other:?}"),
    }
    assert!(matches!(made.generation.manifests[1], (2, ManifestPlan::Reuse { reference: 78 })));
    let error = seal_generation(plan, &written_segment("b", Some("b")), &q).expect_err("elsewhere");
    assert_eq!(told(&error.error), "INDEX writer returned a non-canonical artifact locator");
    let error = seal_generation(plan, &written_segment("b", None), &q).expect_err("elsewhere");
    assert_eq!(told(&error.error), "DATA writer returned a non-canonical artifact locator");
    q.tables[1].source.as_mut().expect("listed").reference = None;
    let error = seal_generation(plan, &written_segment("a", None), &q).expect_err("no reference");
    assert_eq!(told(&error.error), "unchanged table reference is absent");
}

#[test]
fn checkpoint_generation_moves_the_floor() {
    let mut q = selected(&[descriptor(10), descriptor(11)]);
    q.meta = CatalogMeta { catalog_id: 30, catalog_generation: 5, ..meta() };
    let floor = WalReplayFloor { generation: 7, lsn: 90 };
    let lost = |id: u128| TableSegmentChange {
        table_id: 1,
        additions: Vec::new(),
        removals: vec![id],
        tombstone_ack: Some(3),
    };
    let rows = vec![TableSegmentChange { tombstone_ack: None, ..lost(11) }];
    let made = checkpoint_generation(&q, vec![lost(10)], rows, 6, floor).expect("no conflict");
    assert_eq!(made.changes.len(), 1);
    assert_eq!(made.changes[0].removals, vec![10, 11]);
    assert_eq!(made.changes[0].tombstone_ack, Some(3));
    assert!(made.generation.stages_catalog);
    assert_eq!(made.generation.control.catalog, CatalogRoot { id: 30, generation: 5 });
    assert_eq!(made.generation.control.wal_replay_floor, floor);
    match &made.generation.manifests[0].1 {
        ManifestPlan::Write { segments, .. } => assert!(segments.is_empty()),
        other => panic!("unexpected plan: {other:?}"),
    }
    let error = checkpoint_generation(&q, vec![lost(10)], vec![lost(11)], 6, floor)
        .expect_err("two tombstone sets");
    assert_eq!(
        told(&error),
        "checkpoint produced duplicate tombstone publication acknowledgements"
    );
    assert_eq!(retired_logs(true, vec![4, 5], true).expect("owned"), vec![4, 5]);
    assert!(retired_logs(true, vec![4, 5], false).expect("owned").is_empty());
    let error = retired_logs(false, vec![4], true).expect_err("no owner");
    assert_eq!(told(&error), "physical checkpoint lost its WAL persistence owner");
}

fn index_definition() -> IndexDefinition {
    IndexDefinition {
        revision: 3_u64.to_le_bytes().to_vec(),
        access_method_tag: vec![1],
        unique: true,
        key_column_ids: vec![[7; 16]],
        include_column_ids: Vec::new(),
        expression_sql: None,
        predicate_sql: Some("a > 1".to_string()),
        hnsw: None,
        edges: Vec::new(),
    }
}

#[test]
fn index_definitions_have_a_digest() {
    let message = definition_message(&index_definition());
    assert_eq!(message.len(), 91);
    assert!(message.starts_with(b"RADIXDB-INDEX-DEFINITION\0"));
    assert_eq!(index_definition_sha256(&index_definition()), DIGEST.to_vec());
    let mut other = index_definition();
    other.unique = false;
    assert_ne!(index_definition_sha256(&other), DIGEST.to_vec());
    let edge = |is_dependency: bool, target_revision: Option<Vec<u8>>| EdgeDefinition {
        kind_tag: vec![4, 0],
        is_dependency,
        ordinal: vec![1, 0, 0, 0],
        target_id: [9; 16],
        target_revision,
    };
    let mut plain = index_definition();
    plain.edges.push(edge(false, None));
    assert_eq!(index_definition_sha256(&plain), DIGEST.to_vec());
    let mut lost = index_definition();
    lost.edges = vec![edge(false, None), edge(true, None)];
    let bytes = definition_message(&lost);
    assert_eq!(bytes.len(), 121);
    assert_eq!(bytes[83..91], 1_u64.to_le_bytes());
    assert_eq!(bytes[113..], [0_u8; 8]);
    let mut found = index_definition();
    found.edges = vec![edge(true, Some(6_u64.to_le_bytes().to_vec()))];
    assert_eq!(definition_message(&found)[113..], 6_u64.to_le_bytes());
}

fn index_request(table_segments: Vec<SegmentDescriptor>) -> IndexRequest {
    IndexRequest {
        created: vec![CreatedIndex {
            table_name: "t".to_string(),
            found: Ok(Some(FoundIndex { id: 21, parent_id: Some(1) })),
        }],
        persistent: true,
        publisher: true,
        control: control(),
        target_generation: Ok(6),
        meta: Ok(CatalogMeta { catalog_generation: 5, ..meta() }),
        objects: catalog_objects(None),
        tables: vec![IndexedTable {
            name: "t".to_string(),
            table_id: Ok(1),
            segments: table_segments,
        }],
    }
}

#[test]
fn index_publication_keeps_the_data() {
    let found = publish_transactional_indexes(&index_request(vec![descriptor(10)]))
        .expect("one table to index");
    assert_eq!(found.len(), 1);
    assert_eq!((found[0].table_id, found[0].requested_index_id), (1, 21));
    assert_eq!(found[0].accelerators[0].index_id, 21);
    let mut unbuildable = index_request(vec![descriptor(10)]);
    unbuildable.objects = catalog_objects(Some("x > 0"));
    assert!(publish_transactional_indexes(&unbuildable).expect("no pack").is_empty());
    let mut other = index_request(vec![descriptor(10)]);
    other.created[0].found = Ok(Some(FoundIndex { id: 22, parent_id: Some(1) }));
    assert_eq!(
        told(&publish_transactional_indexes(&other).expect_err("not in the pack")),
        "pending CREATE INDEX is absent from the complete accelerator pack"
    );
    let change = index_change(&found[0], &vec![artifact(8)]);
    assert_eq!(change.additions.len(), 1);
    assert_eq!(change.additions[0].data, descriptor(10).data);
    assert_eq!(change.additions[0].index, Some(artifact(8)));
    let q = GenerationRequest {
        meta: CatalogMeta { catalog_generation: 5, ..meta() },
        ..selected(&[descriptor(10)])
    };
    let packs = vec![vec![artifact(8)]];
    let made = index_generation(&q, &found, &packs, 6, 5).expect("the catalog advanced");
    match &made.manifests[0].1 {
        ManifestPlan::Write { segments, next_segment_sequence, .. } => {
            assert_eq!(segments, &change.additions);
            assert_eq!(*next_segment_sequence, 3);
        }
        other => panic!("unexpected plan: {other:?}"),
    }
    assert_eq!(made.control.wal_replay_floor, control().wal_replay_floor);
    let error = index_generation(&q, &found, &packs, 6, 4).expect_err("another catalog");
    assert_eq!(told(&error), "DDL INDEX publication did not advance the physical catalog");
    let empty = publish_transactional_indexes(&index_request(Vec::new())).expect("no rows");
    assert!(empty.is_empty());
    let mut lost = index_request(vec![descriptor(10)]);
    lost.created[0].found = Ok(None);
    let error = publish_transactional_indexes(&lost).expect_err("not committed");
    assert_eq!(told(&error), "pending CREATE INDEX is absent from the committed catalog");
    assert!(check_index_catalog(5, 5).is_ok());
    assert!(check_index_catalog(4, 5).is_err());
    assert!(matches!(swaps_cold_copies(true, 1, true), Ok(_)));
    assert!(swaps_cold_copies(false, 1, true).is_err());
}

#[test]
fn restore_state_round_trips() {
    let state =
        PhysicalRestoreState { phase: PhysicalRestorePhase::OldMoved, old_components: 0x0d };
    let bytes = state.encode();
    assert_eq!(bytes, STATE_BYTES.to_vec());
    assert_eq!(PhysicalRestoreState::decode(&bytes).expect("intact"), state);
    let mut torn = bytes.clone();
    torn[8] = 3;
    assert_eq!(
        told(&PhysicalRestoreState::decode(&torn).expect_err("torn")),
        "physical restore state checksum mismatch"
    );
    assert_eq!(
        told(&PhysicalRestoreState::decode(&bytes[..15]).expect_err("short")),
        "invalid physical restore state header"
    );
    let blank = PhysicalRestoreState { phase: PhysicalRestorePhase::Prepared, old_components: 4 };
    assert_eq!(
        told(&PhysicalRestoreState::decode(&blank.encode()).expect_err("no slot")),
        "physical restore state does not preserve a CONTROL slot"
    );
    let wide = PhysicalRestoreState { phase: PhysicalRestorePhase::Prepared, old_components: 257 };
    assert_eq!(
        told(&PhysicalRestoreState::decode(&wide.encode()).expect_err("too wide")),
        "physical restore state has an invalid component mask"
    );
    let (name, stored) = write_physical_restore_state(state);
    assert!(name.starts_with(".physical-restore-state"));
    assert_eq!(stored, bytes);
}

fn absent() -> Vec<PathStatus> {
    (0..COMPONENT_COUNT).map(|_| PathStatus::Absent).collect()
}

#[test]
fn components_have_fixed_bits_and_kinds() {
    assert_eq!(component_name(0), "CONTROL.0");
    assert_eq!(component_index("wal"), Some(2));
    assert_eq!(component_index("other"), None);
    assert_eq!(component_bit("catalog"), 8);
    assert!(validate_restore_component("CONTROL.0", &PathStatus::File).is_ok());
    assert!(validate_restore_component("CONTROL.0", &PathStatus::Directory).is_err());
    assert!(validate_restore_component("wal", &PathStatus::Directory).is_ok());
    let error = validate_restore_component("wal", &PathStatus::Symlink).expect_err("a link");
    assert_eq!(told(&error), "physical restore component 'wal' is a symlink");
    assert!(require_absent_restore_path("p", &PathStatus::Absent).is_ok());
    assert!(require_absent_restore_path("p", &PathStatus::File).is_err());
    assert!(matches!(
        remove_restore_path_if_present("p", &PathStatus::Directory),
        Ok(Removal::Tree)
    ));
    assert!(matches!(
        remove_restore_path_if_present("p", &PathStatus::Absent),
        Ok(Removal::Nothing)
    ));
    let mut found = absent();
    found[1] = PathStatus::File;
    found[3] = PathStatus::Directory;
    assert_eq!(existing_component_mask(&found).expect("one slot"), 10);
    assert_eq!(
        told(&existing_component_mask(&absent()).expect_err("no slot")),
        "live physical generation has no CONTROL slot"
    );
    assert_eq!(components_to_move(10), vec![1, 3]);
}

#[test]
fn staged_restore_holds_the_required_components() {
    let entry = |name: &str, status: PathStatus| StagedEntry::Named { name: name.to_string(), status };
    let error = validate_restore_staging(&vec![entry("junk", PathStatus::File)]).expect_err("junk");
    assert_eq!(told(&error), "physical restore staging contains unknown component 'junk'");
    let error = validate_restore_staging(&Vec::new()).expect_err("empty");
    assert_eq!(told(&error), "physical restore staging is missing a required root component");
    let error = validate_restore_staging(&vec![StagedEntry::NotUtf8]).expect_err("no text");
    assert_eq!(told(&error), "physical restore staging contains a non-UTF-8 component");
}

#[test]
fn rollback_puts_previous_components_back() {
    let state =
        PhysicalRestoreState { phase: PhysicalRestorePhase::NewMoved, old_components: 0b101 };
    assert!(matches!(reconcile_component(state, 0, true), Ok(ComponentRollback::PutBack)));
    assert!(matches!(reconcile_component(state, 1, false), Ok(ComponentRollback::Remove)));
    assert!(reconcile_component(state, 2, false).is_err());
}

#[test]
fn snapshots_stand_under_their_own_name() {
    let found = |is_directory: Result<bool, String>, named: Option<u128>| FoundEntry {
        path: "s/2".to_string(),
        is_directory,
        named,
        manifest: Some(SnapshotKey { created_unix_ns: 5, id: 2 }),
    };
    assert!(matches!(
        inspect_entry(found(Ok(true), Some(2))),
        SnapshotEntry::Committed(SnapshotKey { created_unix_ns: 5, id: 2 })
    ));
    assert!(matches!(inspect_entry(found(Ok(true), Some(3))), SnapshotEntry::Passed));
    assert!(matches!(inspect_entry(found(Ok(true), None)), SnapshotEntry::Passed));
    assert!(matches!(inspect_entry(found(Ok(false), Some(2))), SnapshotEntry::Passed));
    let unsound = FoundEntry { manifest: None, ..found(Ok(true), Some(2)) };
    assert!(matches!(inspect_entry(unsound), SnapshotEntry::Passed));
    let fault = inspect_entry(found(Err("gone".to_string()), Some(2)));
    assert_eq!(
        told(&select_snapshot(&vec![fault]).expect_err("a fault")),
        "failed to inspect snapshot entry 's/2': gone"
    );
}

#[test]
fn installed_packs_take_over_from_cold_indexes() {
    let table = |name: &str, cold: &[&str]| InstalledTable {
        name: name.to_string(),
        has_manager: true,
        attached: Ok(()),
        cold_names: cold.iter().map(|n| n.to_string()).collect(),
        has_store: true,
        replaced: Ok(()),
    };
    let done = install_published_indexes(&vec![table("a", &["i"]), table("b", &[])]);
    assert_eq!(done.unmarked, vec![0]);
    assert_eq!(done.published.expect("both"), vec!["a".to_string(), "b".to_string()]);
    let storeless = InstalledTable { has_store: false, ..table("b", &["k"]) };
    let torn = install_published_indexes(&vec![table("a", &["i"]), storeless]);
    assert_eq!(torn.unmarked, vec![0]);
    assert_eq!(
        told(&torn.published.expect_err("no store")),
        "published INDEX table lost its version store"
    );
    let unmanaged = InstalledTable { has_manager: false, ..table("a", &["i"]) };
    let none = install_published_indexes(&vec![unmanaged]);
    assert!(none.unmarked.is_empty());
    assert_eq!(
        told(&none.published.expect_err("no manager")),
        "published INDEX table lost its segment manager"
    );
    let detached = InstalledTable { attached: Err(Error::internal("torn")), ..table("a", &[]) };
    assert_eq!(
        told(&install_published_indexes(&vec![detached]).published.expect_err("torn")),
        "torn"
    );
}

#[test]
fn newest_committed_snapshot_is_chosen() {
    let key = |created_unix_ns: u64, id: u128| SnapshotKey { created_unix_ns, id };
    let entries = vec![
        SnapshotEntry::Committed(key(5, 1)),
        SnapshotEntry::Passed,
        SnapshotEntry::Committed(key(9, 2)),
        SnapshotEntry::Committed(key(7, 3)),
    ];
    assert_eq!(select_snapshot(&entries).expect("three"), 2);
    assert_eq!(
        told(&select_snapshot(&vec![SnapshotEntry::Passed]).expect_err("none")),
        "no committed physical snapshot found"
    );
    let mut retired = retain_latest_snapshots(vec![key(5, 1), key(9, 2), key(7, 3)], 2);
    retired.sort();
    assert_eq!(retired, vec![0]);
    assert!(requested_snapshot("a", Ok(4), 4).is_ok());
    assert!(requested_snapshot("a", Ok(4), 5).is_err());
    assert_eq!(
        told(&requested_snapshot("zz", Err("odd".to_string()), 4).expect_err("no number")),
        "invalid physical snapshot ID 'zz': odd"
    );
}

#[test]
fn snapshot_members_are_copied_once() {
    let file = |id: u128| NamedFile { id, path: format!("p{id}") };
    let generation = |artifacts: &[u128]| GenerationFiles {
        database_manifest: file(1),
        catalog: file(1),
        tables: vec![file(2)],
        artifacts: artifacts
            .iter()
            .map(|id| ArtifactFile { is_index: *id % 2 == 0, file: file(*id) })
            .collect(),
    };
    let mut members = vec![
        SnapshotMemberKind::DatabaseManifest,
        SnapshotMemberKind::Catalog,
        SnapshotMemberKind::TableManifest,
        SnapshotMemberKind::Wal,
        SnapshotMemberKind::Data,
        SnapshotMemberKind::Index,
    ];
    let sources = physical_member_sources(generation(&[5, 6]), &members).expect("distinct");
    assert_eq!(member_source(&sources, SnapshotMemberKind::Index, 6).expect("listed"), "p6");
    assert!(member_source(&sources, SnapshotMemberKind::Data, 6).is_err());
    assert!(member_source(&sources, SnapshotMemberKind::Wal, 2).is_err());
    let error = physical_member_sources(generation(&[5, 5]), &members).expect_err("twice");
    assert_eq!(told(&error), "physical snapshot generation repeats a member identity");
    members.pop();
    let error = physical_member_sources(generation(&[5, 6]), &members).expect_err("one over");
    assert_eq!(told(&error), "physical snapshot source count 5 differs from manifest count 4");

    let mut copy = SnapshotCopy::new("f", 70_000, 70_000, true).expect("sizes agree");
    let mut steps = Vec::new();
    while let Some(length) = copy.next_length() {
        steps.push(length);
        copy.copied(&vec![1; length]);
    }
    assert_eq!(steps, vec![65_536, 4_464]);
    assert_eq!(
        copy.finish(0).expect("complete"),
        Some(vec![
            38, 124, 203, 220, 78, 29, 36, 137, 30, 24, 19, 13, 38, 144, 252, 79, 121, 107, 70, 15,
            146, 167, 255, 241, 87, 115, 182, 148, 20, 58, 150, 91,
        ])
    );
    let mut unread = SnapshotCopy::new("f", 2, 2, false).expect("sizes agree");
    unread.copied(&vec![1, 2]);
    assert_eq!(unread.finish(0).expect("complete"), None);
    let grown = SnapshotCopy::new("f", 0, 0, false).expect("empty");
    assert_eq!(
        told(&grown.finish(1).expect_err("more bytes")),
        "snapshot source 'f' grew while being copied"
    );
    let error = SnapshotCopy::new("f", 1, 2, false).err().expect("another size");
    assert_eq!(told(&error), "snapshot source 'f' is 1 bytes; expected 2");
    assert!(matches!(check_snapshot_cancelled(true), Err(Error::QueryCancelled)));
}

#[test]
fn restore_is_committed_or_rolled_back() {
    let mut swap = RestoreSwap::new();
    for _ in 0..8 {
        swap.succeeded();
    }
    assert_eq!(swap.stage, SwapStage::Done);
    assert_eq!(swap.recorded, PhysicalRestorePhase::Committed);

    let failure = |text: &str| SwapFailure { error: Error::internal(text), text: text.to_string() };
    let mut swap = RestoreSwap::new();
    swap.succeeded();
    swap.failed(failure("disk"));
    assert_eq!(swap.stage, SwapStage::RollBack);
    swap.succeeded();
    assert_eq!(swap.stage, SwapStage::Failed);
    assert_eq!(told(swap.error.as_ref().expect("kept")), "disk");

    let mut swap = RestoreSwap::new();
    for _ in 0..6 {
        swap.succeeded();
    }
    assert_eq!(swap.stage, SwapStage::RecordCommitted);
    swap.failed(failure("sync"));
    assert_eq!(swap.stage, SwapStage::RepairRecord);
    swap.failed(failure("again"));
    assert_eq!(swap.stage, SwapStage::Failed);
    assert_eq!(
        told(swap.error.as_ref().expect("kept")),
        "restore commit failed (sync) and rollback-state repair failed (again)"
    );
    assert_eq!(
        told(&swap_physical_restore_failure("a", Ok(()))),
        "physical restore failed and the previous generation was restored: a"
    );
}

#[test]
fn restore_waits_for_transactions_and_leftovers() {
    assert!(check_drained(0).is_ok());
    assert_eq!(
        told(&check_drained(3).expect_err("busy")),
        "cannot restore while 3 transactions remain active"
    );
    assert_eq!(orphan_identity(".restore-ab"), Some("ab".to_string()));
    assert_eq!(orphan_identity("wal"), None);
    let paths = prepare_restore_staging(false, "ab").expect("nothing left over");
    assert_eq!(paths[1], ".restore-ab");
    assert!(prepare_restore_staging(true, "ab").is_err());
    assert_eq!(reconcile_physical_restore(None), Reconciliation::DropOrphans);
    let at = |phase: PhysicalRestorePhase| Some(PhysicalRestoreState { phase, old_components: 1 });
    assert_eq!(
        reconcile_physical_restore(at(PhysicalRestorePhase::Committed)),
        Reconciliation::CleanUp
    );
    assert_eq!(
        reconcile_physical_restore(at(PhysicalRestorePhase::OldMoved)),
        Reconciliation::RollBack
    );
    let mut admission = RestoreAdmission::new();
    assert!(admission.resume());
    assert!(!admission.finish());
    assert!(RestoreAdmission::new().finish());
}

#[test]
fn jobs_are_counted_while_they_run() {
    let mut jobs = CompactionJobConcurrencyState::new();
    let first = jobs.start_job();
    let second = jobs.start_job();
    assert_eq!((jobs.active(), jobs.peak()), (2, 2));
    jobs.finish_job(first);
    jobs.finish_job(second);
    assert_eq!((jobs.active(), jobs.peak()), (0, 2));
}

#[test]
fn ledger_classifies_cancelled_jobs() {
    let mut ledger = EngineCompactionCostState::new();
    ledger.selected("sub_target_merge");
    ledger.selected("unknown");
    ledger.deferred("retry_cooldown");
    ledger.start_job(1, 2).invalidated(&mut ledger, "schema_epoch_changed");
    ledger.start_job(1, 2).invalidated(&mut ledger, "disk_reserve_exhausted");
    ledger.start_job(1, 2).abandoned(&mut ledger);
    let shown = ledger.snapshot();
    assert_eq!(shown.jobs_selected_sub_target_merge, 1);
    assert_eq!(shown.jobs_waited_retry_cooldown, 1);
    assert_eq!((shown.jobs_cancelled_schema_epoch, shown.jobs_cancelled_budget), (1, 1));
    assert_eq!((shown.jobs_planned, shown.jobs_invalidated, shown.jobs_failed), (3, 2, 1));
    assert_eq!(shown.total_wasted_input_bytes, 4);
    assert_eq!(shown.last_outcome, "failed_unclassified");
    assert_eq!(shown.last_selection_reason, "sub_target_merge");
}

#[test]
fn operations_report_their_last_run() {
    let mut state = RuntimeOperationState::new();
    let guard = state.start(100);
    guard.set_detail_with_reason(&mut state, "t", &vec![1, 2], "sub_target_merge");
    guard.add_input(&mut state, 5, 50);
    guard.add_output(&mut state, 3, 30);
    guard.add_reclaimed(&mut state, 2, 20);
    let running = state.snapshot(140);
    assert!(running.counters.active);
    assert_eq!(running.elapsed_millis, 40);
    assert_eq!(running.detail.segment_ids, vec![1, 2]);
    guard.success(&mut state, 7, 150);
    let done = state.snapshot(160);
    assert!(!done.counters.active);
    assert_eq!((done.counters.calls, done.counters.completed, done.counters.failed), (1, 1, 0));
    assert_eq!(done.counters.last.output_rows, 3);
    assert_eq!(done.counters.last_success_unix_millis, 150);
    let guard = state.start(200);
    guard.failure(&mut state, 1, 210);
    assert_eq!(state.snapshot(220).counters.failed, 1);
}

fn flags() -> RuntimeFlags {
    RuntimeFlags {
        schema_epoch: 1,
        pressure_seal_requested: false,
        compaction_requested: false,
        compaction_running: false,
        compaction_active_jobs: 0,
        compaction_peak_active_jobs: 0,
        compaction_soft_backpressure_waits: 0,
        compaction_soft_backpressure_wait_millis: 0,
        compaction_hard_backpressure_rejections: 0,
        checkpoint_mutex_busy: false,
        page_cache_warmup_busy: false,
    }
}

#[test]
fn statistics_name_what_they_could_not_see() {
    let samples = RuntimeSamples {
        captured_unix_millis: 1000,
        lifecycle: Some("ready".to_string()),
        transaction: TransactionSample {
            active: 2,
            accepting: true,
            oldest_begin_sequence: Some(8),
            oldest_begin_timestamp_nanos: None,
            wait_edges: Some(0),
            registry_busy: false,
            truncated: false,
        },
        hot: Some(vec![HotSample { rows: 4, bytes: 40 }]),
        staging: None,
        cold_tables: Some(2),
        config: None,
        cooldown: CooldownSnapshot {
            active: false,
            until_unix_millis: 0,
            suppressed: 0,
            last_reason: String::new(),
        },
        wal: None,
        flags: flags(),
        maintenance: EngineMaintenanceState::new().snapshot(1000),
    };
    let mut counter = SnapshotCounter::new();
    assert_eq!((counter.take(), counter.take()), (1, 2));
    let stats = runtime_stats_snapshot(&mut counter, samples, |_: usize, _: usize| ColdOwner {
        sizes: ColdSizes { segments: 1, rows: 10, ..ColdSizes::zero() },
        level_metadata_busy: false,
        truncated: false,
    });
    assert!(!stats.complete);
    assert_eq!(stats.sequence, 3);
    assert!(stats.missing_evidence.contains(&"config_busy".to_string()));
    assert!(stats.missing_evidence.contains(&"staging_owner_map_busy".to_string()));
    assert!(stats.truncated_owners.is_empty());
    assert_eq!((stats.hot.tables, stats.hot.rows, stats.hot.bytes), (1, 4, 40));
    assert_eq!((stats.cold.tables, stats.cold.sizes.segments, stats.cold.sizes.rows), (2, 2, 20));
    assert_eq!(stats.lifecycle, "ready");
    assert_eq!(stats.active_transactions, 2);
}

#[test]
fn visits_of_owners_are_bounded() {
    let many: Vec<HotSample> =
        (0..RUNTIME_STATS_MAX_TABLES + 5).map(|_| HotSample { rows: 1, bytes: 2 }).collect();
    let total = hot_totals(&Some(many));
    assert_eq!(total.rows, RUNTIME_STATS_MAX_TABLES as u64);
    let staged = staging_totals(&Some(vec![vec![Some(3), None], vec![Some(4)]]));
    assert_eq!((staged.transactions, staged.rows), (2, 7));
    assert!(staged.busy && !staged.full);
    assert_eq!(runtime_unix_millis(u128::MAX), u64::MAX);
    assert_eq!(runtime_unix_millis(12), 12);
}
