use radixdb_engine::compaction::job::background_wave_width;
use radixdb_engine::compaction::job::compresses_volumes;
use radixdb_engine::compaction::job::CompactionConfig;
use radixdb_engine::compaction::job::StagedOutput;
use radixdb_engine::compaction::staging::RowRange;
use radixdb_engine::compaction::staging::StagingAction;
use radixdb_engine::compaction::staging::StagingEvent;
use radixdb_engine::compaction::staging::StagingRun;
use radixdb_engine::ddl::readiness::BuildAction;
use radixdb_engine::ddl::readiness::BuildEvent;
use radixdb_engine::ddl::readiness::BuildRun;
use radixdb_engine::ddl::readiness::Detached;
use radixdb_engine::ddl::request::PendingIndexDefinition;
use radixdb_engine::engine::checkpoint::checkpoint_cycle_inner;
use radixdb_engine::engine::checkpoint::CheckpointAction;
use radixdb_engine::engine::checkpoint::CheckpointEvent;
use radixdb_engine::engine::checkpoint::SealReport;
use radixdb_engine::engine::close::CloseEvent;
use radixdb_engine::engine::close::ClosePhase;
use radixdb_engine::engine::close::CloseRun;
use radixdb_engine::engine::lifecycle::EngineLifecycle;
use radixdb_engine::engine::truncate::truncate_table_under_ddl_fence;
use radixdb_engine::engine::truncate::TruncateAction;
use radixdb_engine::engine::truncate::TruncateEvent;
use radixdb_engine::engine::truncate::TruncateRequest;
use radixdb_engine::engine::worker::LockTry;
use radixdb_engine::error::Error;
use radixdb_engine::names::NameMap;
use radixdb_engine::pressure::SealThresholds;
use radixdb_engine::snapshot::create::create_physical_snapshot_cancellable;
use radixdb_engine::snapshot::create::CommitFault;
use radixdb_engine::snapshot::create::SnapshotAction;
use radixdb_engine::snapshot::create::SnapshotEvent;
use radixdb_engine::snapshot::create::BuiltManifest;
use radixdb_engine::snapshot::create::SnapshotRun;
use radixdb_engine::snapshot::restore::restore_physical_snapshot;
use radixdb_engine::snapshot::restore::Materialised;
use radixdb_engine::snapshot::restore::RestoreEvent;
use radixdb_engine::snapshot::restore::RestorePhase;
use radixdb_engine::snapshot::restore::SwapFault;

fn said(error: &Error) -> &str {
    match error {
        Error::Internal { message } => message.as_str(),
        Error::InvalidArgument(message) => message.as_str(),
        _ => "",
    }
}

fn sealed(stale_publication: bool, boundary_moved: bool) -> CheckpointEvent {
    CheckpointEvent::Sealed(Ok(SealReport { stale_publication, boundary_moved }))
}

#[test]
fn scheduled_checkpoint_seals_stragglers_and_publishes() {
    assert!(checkpoint_cycle_inner(false, true).is_none());
    let mut run = checkpoint_cycle_inner(true, false).expect("enabled");
    assert_eq!(run.action(), CheckpointAction::Seal { all: false });
    assert_eq!(run.advance(sealed(true, false)), CheckpointAction::CountHot);
    assert_eq!(
        run.advance(CheckpointEvent::HotCounted { all_empty: false }),
        CheckpointAction::Seal { all: true }
    );
    assert_eq!(run.advance(sealed(false, false)), CheckpointAction::HoldCommits);
    assert_eq!(
        run.advance(CheckpointEvent::CommitsHeld { fenced: true, all_empty: true }),
        CheckpointAction::CreateCheckpoint
    );
    assert_eq!(
        run.advance(CheckpointEvent::Created(Some(Ok(40)))),
        CheckpointAction::PrepareRetention { checkpoint_lsn: 40 }
    );
    assert_eq!(
        run.advance(CheckpointEvent::Prepared(Ok(3))),
        CheckpointAction::PublishGeneration { checkpoint_lsn: 40, wal_generation: 3 }
    );
    assert_eq!(
        run.advance(CheckpointEvent::Published(Ok(()))),
        CheckpointAction::Finish { result_marker: 40 }
    );
    assert_eq!(run.advance(CheckpointEvent::Finished), CheckpointAction::Nothing);
    assert!(matches!(run.outcome(), Some(Ok(40))));
}

#[test]
fn checkpoint_with_rows_left_defers_or_fails() {
    let mut run = checkpoint_cycle_inner(true, false).expect("enabled");
    run.advance(sealed(false, false));
    run.advance(CheckpointEvent::HotCounted { all_empty: true });
    let held = CheckpointEvent::CommitsHeld { fenced: true, all_empty: false };
    assert_eq!(run.advance(held), CheckpointAction::Finish { result_marker: 0 });

    let mut run = checkpoint_cycle_inner(true, true).expect("enabled");
    assert_eq!(run.action(), CheckpointAction::Seal { all: true });
    assert_eq!(run.advance(sealed(true, false)), CheckpointAction::Seal { all: true });
    assert_eq!(run.advance(sealed(true, false)), CheckpointAction::Seal { all: true });
    assert_eq!(run.advance(sealed(true, false)), CheckpointAction::CountHot);
    let counted = CheckpointEvent::HotCounted { all_empty: false };
    assert_eq!(run.advance(counted), CheckpointAction::HoldCommits);
    let held = CheckpointEvent::CommitsHeld { fenced: true, all_empty: false };
    assert_eq!(run.advance(held), CheckpointAction::Nothing);
    let error = run.outcome().expect("done").expect_err("rows were left");
    assert_eq!(said(&error), "forced checkpoint left committed hot rows unsealed");
}

fn opened() -> EngineLifecycle {
    let mut engine = EngineLifecycle::new();
    assert!(matches!(engine.open_engine(), Ok(true)));
    engine.opened();
    engine
}

#[test]
fn close_fails_with_resources_and_goes_on() {
    let mut engine = opened();
    assert!(matches!(engine.close_engine(), Ok(true)));
    let mut run = CloseRun::new();
    assert_eq!(run.phase(), ClosePhase::StopWarmup);
    assert_eq!(run.advance(&mut engine, CloseEvent::Text(Ok(()))), ClosePhase::StopWorker);
    let stopped = CloseEvent::Outcome(Ok(()));
    assert_eq!(run.advance(&mut engine, stopped), ClosePhase::EndTransactions);
    let remaining = CloseEvent::Remaining { transactions: 2, waited: "30s".to_string() };
    assert_eq!(run.advance(&mut engine, remaining), ClosePhase::Failed);
    assert_eq!(engine.state.label(), "close_failed");
    assert_eq!(
        said(&run.outcome().expect("failed")),
        "close_engine timed out with 2 active transaction(s) after 30s; resources remain owned and shutdown may be retried"
    );

    assert!(matches!(engine.close_engine(), Ok(true)));
    let mut run = CloseRun::new();
    run.advance(&mut engine, CloseEvent::Text(Ok(())));
    run.advance(&mut engine, CloseEvent::Outcome(Ok(())));
    let remaining = CloseEvent::Remaining { transactions: 0, waited: "30s".to_string() };
    assert_eq!(run.advance(&mut engine, remaining), ClosePhase::Inquire);
    let inquired = CloseEvent::Inquired { checkpoint_on_close: true, persistent: true };
    assert_eq!(run.advance(&mut engine, inquired), ClosePhase::FinalCheckpoint);
    for _ in 0..4 {
        run.advance(&mut engine, CloseEvent::Outcome(Ok(())));
        let counted = CloseEvent::HotCounted { all_empty: false };
        assert_eq!(run.advance(&mut engine, counted), ClosePhase::FinalCheckpoint);
    }
    run.advance(&mut engine, CloseEvent::Outcome(Ok(())));
    let counted = CloseEvent::HotCounted { all_empty: true };
    assert_eq!(run.advance(&mut engine, counted), ClosePhase::FinalMerge);
    assert_eq!(run.advance(&mut engine, CloseEvent::Outcome(Ok(()))), ClosePhase::AwaitMerge);
    assert!(engine.shutdown_checkpoint_complete);
    assert_eq!(run.advance(&mut engine, CloseEvent::Passed), ClosePhase::StopPersistence);
    let fsync = CloseEvent::Outcome(Err(Error::internal("fsync")));
    assert_eq!(run.advance(&mut engine, fsync), ClosePhase::Failed);

    assert!(matches!(engine.close_engine(), Ok(true)));
    let mut run = CloseRun::new();
    run.advance(&mut engine, CloseEvent::Text(Ok(())));
    run.advance(&mut engine, CloseEvent::Outcome(Ok(())));
    let remaining = CloseEvent::Remaining { transactions: 0, waited: "30s".to_string() };
    run.advance(&mut engine, remaining);
    let inquired = CloseEvent::Inquired { checkpoint_on_close: true, persistent: true };
    assert_eq!(run.advance(&mut engine, inquired), ClosePhase::AwaitMerge);
    run.advance(&mut engine, CloseEvent::Passed);
    assert_eq!(run.advance(&mut engine, CloseEvent::Outcome(Ok(()))), ClosePhase::CloseStores);
    assert_eq!(run.advance(&mut engine, CloseEvent::Passed), ClosePhase::RevokePublisher);
    assert_eq!(run.advance(&mut engine, CloseEvent::Passed), ClosePhase::ReleaseLock);
    assert_eq!(run.advance(&mut engine, CloseEvent::Passed), ClosePhase::Closed);
    assert_eq!(engine.state.label(), "closed");
    assert!(run.outcome().is_none());
}

#[test]
fn close_gives_up_on_rows_that_stay() {
    let mut engine = opened();
    assert!(matches!(engine.close_engine(), Ok(true)));
    let mut run = CloseRun::new();
    let warm = CloseEvent::Text(Err("stuck".to_string()));
    assert_eq!(run.advance(&mut engine, warm), ClosePhase::Failed);
    assert_eq!(said(&run.outcome().expect("failed")), "page-cache warmup worker failed: stuck");

    assert!(matches!(engine.close_engine(), Ok(true)));
    let mut run = CloseRun::new();
    run.advance(&mut engine, CloseEvent::Text(Ok(())));
    run.advance(&mut engine, CloseEvent::Outcome(Ok(())));
    let remaining = CloseEvent::Remaining { transactions: 0, waited: "30s".to_string() };
    run.advance(&mut engine, remaining);
    let inquired = CloseEvent::Inquired { checkpoint_on_close: true, persistent: true };
    run.advance(&mut engine, inquired);
    for _ in 0..5 {
        run.advance(&mut engine, CloseEvent::Outcome(Ok(())));
        run.advance(&mut engine, CloseEvent::HotCounted { all_empty: false });
    }
    assert_eq!(run.phase(), ClosePhase::Failed);
    assert_eq!(
        said(&run.outcome().expect("failed")),
        "final checkpoint did not drain all committed hot rows; resources remain owned and shutdown may be retried"
    );
}

fn built(members: usize) -> BuiltManifest {
    BuiltManifest {
        members,
        database_id: "d".to_string(),
        physical_format_major: 6,
        physical_format_minor: 2,
    }
}

fn pinned_snapshot() -> SnapshotRun {
    let mut run = create_physical_snapshot_cancellable(true, false, true).expect("allowed");
    assert!(!run.asks_caller());
    run.advance(SnapshotEvent::RootMade { path: "s".to_string(), outcome: Ok(()) });
    assert!(!run.asks_caller());
    assert!(matches!(
        run.advance(SnapshotEvent::Tried { taken: false }),
        SnapshotAction::ClaimSlot
    ));
    assert!(run.asks_caller());
    run.advance(SnapshotEvent::Tried { taken: true });
    run.advance(SnapshotEvent::Tried { taken: true });
    assert!(matches!(
        run.advance(SnapshotEvent::LockTried(LockTry::Taken)),
        SnapshotAction::HoldCommits
    ));
    assert!(matches!(run.advance(SnapshotEvent::Tried { taken: true }), SnapshotAction::Pin));
    run.advance(SnapshotEvent::Pinned(Some(Ok(()))));
    assert!(matches!(
        run.advance(SnapshotEvent::Frozen(Ok(2))),
        SnapshotAction::CreateDirectory
    ));
    assert!(matches!(
        run.advance(SnapshotEvent::DirectoryMade {
            snapshot_id: "1".to_string(),
            path: "s/1".to_string(),
            outcome: Ok(()),
        }),
        SnapshotAction::CopyLog { index: 0 }
    ));
    run
}

#[test]
fn snapshot_copies_every_member_before_its_manifest() {
    let mut run = pinned_snapshot();
    assert!(matches!(
        run.advance(SnapshotEvent::Copied(Ok(()))),
        SnapshotAction::CopyLog { index: 1 }
    ));
    assert!(matches!(
        run.advance(SnapshotEvent::Copied(Ok(()))),
        SnapshotAction::BuildManifest
    ));
    assert!(matches!(
        run.advance(SnapshotEvent::Built(Ok(built(1)))),
        SnapshotAction::CopyMember { index: 0 }
    ));
    assert!(matches!(run.advance(SnapshotEvent::Copied(Ok(()))), SnapshotAction::Commit));
    assert!(matches!(run.advance(SnapshotEvent::Committed(Ok(()))), SnapshotAction::Retain));
    assert!(matches!(run.advance(SnapshotEvent::Retained), SnapshotAction::Finish));
    let (end, remove) = run.outcome();
    let identity = end.expect("done").expect("committed");
    assert_eq!((identity.snapshot_id.as_str(), identity.database_id.as_str()), ("1", "d"));
    assert_eq!((identity.physical_format_major, identity.physical_format_minor), (6, 2));
    assert_eq!(remove, None);
}

#[test]
fn snapshot_that_fails_is_removed() {
    let mut run = pinned_snapshot();
    assert!(run.asks_caller());
    assert!(matches!(run.advance(SnapshotEvent::Cancelled), SnapshotAction::Finish));
    let (end, remove) = run.outcome();
    assert!(matches!(end, Some(Err(Error::QueryCancelled))));
    assert_eq!(remove, Some("s/1".to_string()));

    for manifest_exists in [false, true] {
        let mut run = pinned_snapshot();
        run.advance(SnapshotEvent::Copied(Ok(())));
        run.advance(SnapshotEvent::Copied(Ok(())));
        assert!(matches!(run.advance(SnapshotEvent::Built(Ok(built(0)))), SnapshotAction::Commit));
        let fault = CommitFault { text: "sync".to_string(), manifest_exists };
        run.advance(SnapshotEvent::Committed(Err(fault)));
        let (end, remove) = run.outcome();
        let error = end.expect("done").expect_err("failed");
        assert_eq!(said(&error), "physical snapshot failed: sync");
        assert_eq!(remove.is_some(), !manifest_exists);
    }

    let error = create_physical_snapshot_cancellable(true, true, true).expect_err("in memory");
    assert_eq!(said(&error), "SNAPSHOT requires a persistent database");
    let error = create_physical_snapshot_cancellable(true, false, false).expect_err("disabled");
    assert_eq!(said(&error), "SNAPSHOT requires an enabled persistent database");
    assert!(matches!(
        create_physical_snapshot_cancellable(false, false, true),
        Err(Error::EngineNotOpen)
    ));
}

#[test]
fn restore_ends_with_the_selected_snapshot() {
    let mut engine = opened();
    let mut run = restore_physical_snapshot(true, false, true).expect("allowed");
    run.advance(&mut engine, RestoreEvent::Fenced);
    run.advance(&mut engine, RestoreEvent::Remaining { transactions: 0 });
    run.advance(&mut engine, RestoreEvent::Selected(Ok("7".to_string())));
    run.advance(&mut engine, RestoreEvent::Selected(Ok("8".to_string())));
    run.advance(&mut engine, RestoreEvent::Outcome(Ok(())));
    let whole = Materialised::Complete { same_snapshot: true, same_root: true };
    run.advance(&mut engine, RestoreEvent::Materialised(whole));
    assert_eq!(run.advance(&mut engine, RestoreEvent::Swapped(Ok(()))), RestorePhase::Done);
    let (end, resumes) = run.outcome();
    assert_eq!(end.expect("done").expect("restored"), "7");
    assert!(resumes);

    let mut run = restore_physical_snapshot(true, false, true).expect("allowed");
    run.advance(&mut engine, RestoreEvent::Fenced);
    run.advance(&mut engine, RestoreEvent::Remaining { transactions: 0 });
    run.advance(&mut engine, RestoreEvent::Selected(Err(Error::internal("none"))));
    let (end, _) = run.outcome();
    assert_eq!(said(&end.expect("done").expect_err("failed")), "none");
}

#[test]
fn restore_lets_transactions_in_unless_the_database_is_gone() {
    for lost in [false, true] {
        let mut engine = opened();
        let mut run = restore_physical_snapshot(true, false, true).expect("allowed");
        assert_eq!(run.advance(&mut engine, RestoreEvent::Fenced), RestorePhase::EndTransactions);
        let none = RestoreEvent::Remaining { transactions: 0 };
        assert_eq!(run.advance(&mut engine, none), RestorePhase::Select);
        let chosen = RestoreEvent::Selected(Ok("7".to_string()));
        assert_eq!(run.advance(&mut engine, chosen), RestorePhase::PrepareStaging);
        let done = RestoreEvent::Outcome(Ok(()));
        assert_eq!(run.advance(&mut engine, done), RestorePhase::Materialise);
        let torn = Materialised::Faulty { error: Error::internal("sync"), staging_exists: true };
        assert_eq!(
            run.advance(&mut engine, RestoreEvent::Materialised(torn)),
            RestorePhase::ValidateStaging
        );
        let done = RestoreEvent::Outcome(Ok(()));
        assert_eq!(run.advance(&mut engine, done), RestorePhase::Swap);
        let fault = SwapFault { error: Error::internal("swap"), persistence_lost: lost };
        run.advance(&mut engine, RestoreEvent::Swapped(Err(fault)));
        let (end, resumes) = run.outcome();
        assert_eq!(said(&end.expect("done").expect_err("failed")), "swap");
        assert_eq!(resumes, !lost);
        assert_eq!(engine.is_open(), !lost);
    }
    let mut engine = opened();
    let mut run = restore_physical_snapshot(true, false, true).expect("allowed");
    run.advance(&mut engine, RestoreEvent::Fenced);
    let busy = RestoreEvent::Remaining { transactions: 3 };
    assert_eq!(run.advance(&mut engine, busy), RestorePhase::Done);
    let (end, resumes) = run.outcome();
    assert_eq!(
        said(&end.expect("done").expect_err("failed")),
        "cannot restore while 3 transactions remain active"
    );
    assert!(resumes);
    let error = restore_physical_snapshot(true, true, true).expect_err("in memory");
    assert_eq!(said(&error), "RESTORE requires a persistent database");
    let error = restore_physical_snapshot(true, false, false).expect_err("disabled");
    assert_eq!(said(&error), "RESTORE requires enabled persistence");
}

fn index_on(table_name: &str, index_name: &str) -> PendingIndexDefinition {
    PendingIndexDefinition {
        table_name: table_name.to_string(),
        index_name: index_name.to_string(),
        columns: vec!["a".to_string()],
        is_unique: false,
        index_type: None,
        hnsw_m: None,
        hnsw_ef_construction: None,
        hnsw_ef_search: None,
        hnsw_distance_metric: None,
        is_partial: false,
        has_key_encoder: false,
    }
}

#[test]
fn index_builders_give_their_authorization_back() {
    let wanted = vec![index_on("t", "i"), index_on("u", "j")];
    let mut run = BuildRun::new(7, 1, 2);
    assert_eq!(run.action(), BuildAction::CheckRows { table: 0 });
    assert_eq!(run.advance(&wanted, BuildEvent::RowsChecked(Ok(()))), BuildAction::Authorize);
    assert_eq!(
        run.advance(&wanted, BuildEvent::Authorized),
        BuildAction::Build { definition: 0 }
    );
    run.advance(&wanted, BuildEvent::Built(Ok(())));
    assert_eq!(
        run.advance(&wanted, BuildEvent::Built(Ok(()))),
        BuildAction::Detach { definition: 0 }
    );
    assert_eq!(
        run.advance(&wanted, BuildEvent::Detached(Detached::Redundant)),
        BuildAction::Detach { definition: 1 }
    );
    assert_eq!(
        run.advance(&wanted, BuildEvent::Detached(Detached::TableLost)),
        BuildAction::Revoke
    );
    assert_eq!(run.advance(&wanted, BuildEvent::Revoked), BuildAction::Finish);
    assert_eq!(
        said(&run.outcome().expect("failed")),
        "transaction 7 lost table 'u' while detaching index 'j'"
    );

    let mut run = BuildRun::new(7, 0, 2);
    run.advance(&wanted, BuildEvent::Authorized);
    run.advance(&wanted, BuildEvent::Built(Ok(())));
    run.advance(&wanted, BuildEvent::Built(Ok(())));
    run.advance(&wanted, BuildEvent::Detached(Detached::Staged(Ok(()))));
    assert_eq!(
        run.advance(&wanted, BuildEvent::Detached(Detached::Staged(Ok(())))),
        BuildAction::Revoke
    );
    run.advance(&wanted, BuildEvent::Revoked);
    assert!(run.outcome().is_none());

    let mut run = BuildRun::new(7, 1, 2);
    let torn = BuildEvent::RowsChecked(Err(Error::internal("null")));
    assert_eq!(run.advance(&wanted, torn), BuildAction::Finish);
    assert_eq!(said(&run.outcome().expect("failed")), "null");
}

fn too_large() -> Error {
    Error::internal("physical generation publication failed: V6 data artifact is too large")
}

fn artifact(rows: u64) -> StagedOutput {
    StagedOutput { row_count: rows, physical_bytes: rows * 8, has_index: false }
}

fn stage_until_done(rows: usize, limit: usize) -> (Vec<RowRange>, Result<Vec<StagedOutput>, Error>) {
    let mut run = StagingRun::new(rows);
    let mut ranges = Vec::new();
    loop {
        let event = match run.action() {
            StagingAction::Stage { range } if range.end - range.start > limit => {
                StagingEvent::Staged(Err(too_large()))
            }
            StagingAction::Stage { range } => {
                ranges.push(range);
                StagingEvent::Staged(Ok(artifact((range.end - range.start) as u64)))
            }
            StagingAction::Finish => break,
            _ => StagingEvent::Outcome(Ok(())),
        };
        run.advance(event);
    }
    (ranges, run.outcome().expect("done"))
}

#[test]
fn staging_cuts_what_does_not_fit() {
    let (ranges, outputs) = stage_until_done(100, 100);
    assert_eq!(ranges, vec![RowRange { start: 0, end: 100 }]);
    assert_eq!(outputs.expect("staged").len(), 1);
    let (ranges, outputs) = stage_until_done(10, 4);
    let bounds: Vec<(usize, usize)> = ranges.iter().map(|r| (r.start, r.end)).collect();
    assert_eq!(bounds, vec![(0, 2), (2, 5), (5, 7), (7, 10)]);
    let rows: u64 = outputs.expect("staged").iter().map(|output| output.row_count).sum();
    assert_eq!(rows, 10);
    let (ranges, _) = stage_until_done(200_000, 100_000);
    assert_eq!(ranges[0], RowRange { start: 0, end: 65_536 });
    let (ranges, outputs) = stage_until_done(1, 0);
    assert!(ranges.is_empty());
    assert!(said(&outputs.expect_err("one row is not cut")).contains("too large"));
}

#[test]
fn staging_checks_around_every_artifact() {
    let mut run = StagingRun::new(3);
    assert_eq!(run.action(), StagingAction::CheckLive);
    run.advance(StagingEvent::Outcome(Ok(())));
    assert_eq!(run.action(), StagingAction::CheckHeadroom);
    run.advance(StagingEvent::Outcome(Ok(())));
    assert_eq!(run.action(), StagingAction::Stage { range: RowRange { start: 0, end: 3 } });
    run.advance(StagingEvent::Staged(Ok(artifact(3))));
    assert_eq!(run.action(), StagingAction::Account { physical_bytes: 24 });
    run.advance(StagingEvent::Outcome(Ok(())));
    assert_eq!(run.action(), StagingAction::CheckLive);
    run.advance(StagingEvent::Outcome(Err(Error::QueryCancelled)));
    assert_eq!(run.action(), StagingAction::Finish);
    assert!(matches!(run.outcome(), Some(Err(Error::QueryCancelled))));
    let waiting = StagingRun::new(3);
    assert!(waiting.outcome().is_none());
}

fn table_stores() -> NameMap<u8> {
    let mut stores = NameMap::new();
    stores.insert("t".to_string(), 1);
    stores
}

fn truncation(skip_wal: bool, persistent: bool, cold_rows: Option<i32>) -> TruncateRequest {
    TruncateRequest {
        shown_name: "T".to_string(),
        table: Some(Ok(8)),
        skip_wal,
        persistent,
        cold_rows,
    }
}

#[test]
fn truncation_is_logged_before_segments_go() {
    let mut run =
        truncate_table_under_ddl_fence(true, &table_stores(), "T", &truncation(false, true, Some(4)))
            .expect("open, and there");
    assert_eq!(run.action(), TruncateAction::TakeBack);
    assert_eq!(run.advance(TruncateEvent::Passed), TruncateAction::Record { table_id: 8 });
    assert_eq!(
        run.advance(TruncateEvent::Cleared { hot_rows: 1 }),
        TruncateAction::Record { table_id: 8 }
    );
    assert_eq!(run.advance(TruncateEvent::Recorded(Ok(()))), TruncateAction::RemoveSegments);
    assert_eq!(run.advance(TruncateEvent::Removed(Ok(()))), TruncateAction::RemoveFile);
    assert_eq!(run.advance(TruncateEvent::Passed), TruncateAction::ClearHot);
    assert_eq!(run.advance(TruncateEvent::Cleared { hot_rows: 3 }), TruncateAction::Finish);
    assert!(matches!(run.outcome(), Some(Ok(7))));
}

#[test]
fn truncation_that_fails_behind_the_log_needs_recovery() {
    let request = truncation(false, true, Some(4));
    let mut run = truncate_table_under_ddl_fence(true, &table_stores(), "t", &request)
        .expect("open, and there");
    run.advance(TruncateEvent::Passed);
    run.advance(TruncateEvent::Recorded(Ok(())));
    assert_eq!(
        run.advance(TruncateEvent::Removed(Err("torn".to_string()))),
        TruncateAction::Finish
    );
    match run.outcome() {
        Some(Err(Error::WalDurabilityUncertain { detail })) => assert_eq!(
            detail,
            "TRUNCATE 't' is durably committed but persisted segment publication requires recovery: torn"
        ),
        other => panic!("unexpected outcome: {other:?}"),
    }
    let mut run = truncate_table_under_ddl_fence(true, &table_stores(), "t", &request)
        .expect("open, and there");
    run.advance(TruncateEvent::Passed);
    run.advance(TruncateEvent::Recorded(Err(Error::EngineNotOpen)));
    assert!(matches!(run.outcome(), Some(Err(Error::EngineNotOpen))));
    let closed = truncate_table_under_ddl_fence(false, &table_stores(), "t", &request);
    assert!(matches!(closed, Err(Error::EngineNotOpen)));
    let missing = truncate_table_under_ddl_fence(true, &table_stores(), "u", &request);
    assert!(matches!(missing, Err(Error::TableNotFound(_))));
}

#[test]
fn truncation_without_a_log_clears_the_table() {
    let request = truncation(true, false, None);
    let mut run = truncate_table_under_ddl_fence(true, &table_stores(), "t", &request)
        .expect("open, and there");
    assert_eq!(run.action(), TruncateAction::ClearHot);
    run.advance(TruncateEvent::Cleared { hot_rows: 2 });
    assert!(matches!(run.outcome(), Some(Ok(2))));
}

#[test]
fn unreadable_configuration_has_fallbacks() {
    let defaults = CompactionConfig {
        compact_threshold: 9,
        target_volume_rows: 9,
        max_jobs: 3,
        job_cap: 8,
        max_input_bytes: 5,
        max_output_bytes: 6,
        job_time_budget_ms: 7,
        io_bytes_per_sec: 8,
    };
    let fallback = CompactionConfig::read_or_fallback(None, defaults);
    assert_eq!((fallback.compact_threshold, fallback.target_volume_rows), (4, 1_048_576));
    assert_eq!((fallback.max_jobs, fallback.max_input_bytes), (3, 5));
    assert_eq!(CompactionConfig::read_or_fallback(Some(defaults), fallback), defaults);
    assert_eq!(background_wave_width(None, 3, 8), 3);
    assert_eq!(background_wave_width(Some(0), 3, 8), 1);
    assert_eq!(background_wave_width(Some(12), 3, 8), 8);
    assert!(compresses_volumes(None) && !compresses_volumes(Some(false)));
    let seal = SealThresholds::read_or_fallback(None);
    assert_eq!(seal.first_bytes, 64 * 1024 * 1024);
    assert_eq!(seal.incremental_bytes, 16 * 1024 * 1024);
    let read = SealThresholds { first_bytes: 2, incremental_bytes: 1 };
    assert_eq!(SealThresholds::read_or_fallback(Some(read)), read);
}
