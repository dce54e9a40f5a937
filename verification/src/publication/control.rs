//! The control record that selects a generation, and its successors.
use crate::compaction::abort::abort_message;
use crate::compaction::abort::compaction_abort;
use crate::compaction::abort::stale_reason;
use crate::error::refusal;
use crate::error::Error;
use crate::error::ErrorView;
use crate::num::spec_max;
use vstd::prelude::*;
use vstd::slice::slice_subrange;
use vstd::string::StringExecFns;

verus! {

/// One of the two places a control record is written to.
#[derive(Debug, Clone, Copy, PartialEq, Eq, Structural)]
pub enum ControlSlotIndex {
    Zero,
    One,
}

pub open spec fn other_slot(slot: ControlSlotIndex) -> ControlSlotIndex {
    match slot {
        ControlSlotIndex::Zero => ControlSlotIndex::One,
        ControlSlotIndex::One => ControlSlotIndex::Zero,
    }
}

/// The slot that does not hold the current record.
pub fn inactive_slot(slot: ControlSlotIndex) -> (r: ControlSlotIndex)
    ensures
        r == other_slot(slot),
{
    match slot {
        ControlSlotIndex::Zero => ControlSlotIndex::One,
        ControlSlotIndex::One => ControlSlotIndex::Zero,
    }
}

/// Where replay of the log starts.
#[derive(Debug, Clone, Copy, PartialEq, Eq, Structural)]
pub struct WalReplayFloor {
    pub generation: u64,
    pub lsn: u64,
}

/// A catalog by identity and generation.
#[derive(Debug, Clone, Copy, PartialEq, Eq, Structural)]
pub struct CatalogRoot {
    pub id: u128,
    pub generation: u64,
}

/// What selects a generation of the database.
#[derive(Debug, Clone, Copy, PartialEq, Eq, Structural)]
pub struct ControlRecord {
    pub slot: ControlSlotIndex,
    pub database_generation: u64,
    pub database_id: u128,
    pub manifest_id: u128,
    pub catalog: CatalogRoot,
    pub wal_replay_floor: WalReplayFloor,
}

/// The record of the next generation. It is written beside the current one,
/// which stays valid until the switch.
pub fn successor_control(
    current: ControlRecord,
    target_generation: u64,
    manifest_id: u128,
    catalog: CatalogRoot,
    wal_replay_floor: WalReplayFloor,
) -> (r: ControlRecord)
    ensures
        r == (ControlRecord {
            slot: other_slot(current.slot),
            database_generation: target_generation,
            database_id: current.database_id,
            manifest_id,
            catalog,
            wal_replay_floor,
        }),
{
    ControlRecord {
        slot: inactive_slot(current.slot),
        database_generation: target_generation,
        database_id: current.database_id,
        manifest_id,
        catalog,
        wal_replay_floor,
    }
}

/// Identity of the logical catalog.
#[derive(Debug, Clone, Copy, PartialEq, Eq, Structural)]
pub struct CatalogMeta {
    pub database_id: u128,
    pub catalog_id: u128,
    pub catalog_generation: u64,
}

/// Whether the logical catalog is the selected one or follows it.
pub open spec fn follows_control(meta: CatalogMeta, control: ControlRecord) -> bool {
    &&& meta.database_id == control.database_id
    &&& meta.catalog_generation >= control.catalog.generation
    &&& meta.catalog_generation == control.catalog.generation ==> meta.catalog_id
        == control.catalog.id
}

/// Whether it is the selected one.
pub open spec fn is_selected(meta: CatalogMeta, control: ControlRecord) -> bool {
    meta.catalog_generation == control.catalog.generation && meta.catalog_id == control.catalog.id
}

pub open spec fn identity_refusal(meta: CatalogMeta, control: ControlRecord) -> Option<ErrorView> {
    if follows_control(meta, control) {
        None
    } else {
        Some(
            ErrorView::Internal("logical catalog is not a successor of the physical CONTROL root"@),
        )
    }
}

/// Refuses a catalog that neither is nor follows the selected one.
pub fn validate_catalog_identity(meta: CatalogMeta, control: ControlRecord) -> (r: Result<(), Error>)
    ensures
        refusal(r) == identity_refusal(meta, control),
{
    if meta.database_id != control.database_id || meta.catalog_generation
        < control.catalog.generation || (meta.catalog_generation == control.catalog.generation
        && meta.catalog_id != control.catalog.id) {
        return Err(
            Error::internal("logical catalog is not a successor of the physical CONTROL root"),
        );
    }
    Ok(())
}

/// Checksum that closes an encoded member: its last 32 bytes.
pub fn footer_sha(bytes: &[u8]) -> (r: Result<Vec<u8>, Error>)
    ensures
        refusal(r) == (if bytes@.len() >= 32 {
            None
        } else {
            Some(ErrorView::Internal("encoded generation member has no checksum footer"@))
        }),
        r matches Ok(sha) ==> sha@ == bytes@.skip(bytes@.len() - 32),
{
    let n: usize = bytes.len();
    if n < 32 {
        return Err(Error::internal("encoded generation member has no checksum footer"));
    }
    let mut sha: Vec<u8> = Vec::new();
    sha.extend_from_slice(slice_subrange(bytes, n - 32, n));
    assert(sha@ =~= bytes@.skip(n - 32));
    Ok(sha)
}

/// Nanoseconds since the epoch, held to what 64 bits can say.
pub fn unix_time_nanos(since_epoch_nanos: u128) -> (r: u64)
    ensures
        r == if since_epoch_nanos > u64::MAX {
            u64::MAX as int
        } else {
            since_epoch_nanos as int
        },
{
    if since_epoch_nanos > 0xffff_ffff_ffff_ffff {
        u64::MAX
    } else {
        since_epoch_nanos as u64
    }
}

/// A process identifier as staging records it; zero where there is none.
pub fn process_id(raw: Option<u32>) -> (r: u64)
    ensures
        r == match raw {
            Some(id) => id as int,
            None => 0,
        },
{
    match raw {
        Some(id) => id as u64,
        None => 0,
    }
}

/// A staging directory that goes away unless its publication succeeds.
#[derive(Debug)]
pub struct StagingCleanup {
    pub path: String,
    pub armed: bool,
}

impl StagingCleanup {
    pub fn armed(path: String) -> (r: Self)
        ensures
            r.path@ == path@,
            r.armed,
    {
        StagingCleanup { path, armed: true }
    }

    /// The directory now belongs to a published generation.
    pub fn disarm(&mut self)
        ensures
            *final(self) == (StagingCleanup { armed: false, ..*old(self) }),
    {
        self.armed = false;
    }

    /// What has to be removed when the owner is done.
    pub fn finish(self) -> (remove: Option<String>)
        ensures
            match remove {
                Some(path) => self.armed && path@ == self.path@,
                None => !self.armed,
            },
    {
        if self.armed {
            Some(self.path)
        } else {
            None
        }
    }
}

pub open spec fn publication_message(text: Seq<char>) -> ErrorView {
    ErrorView::Internal("physical generation publication failed: "@ + text)
}

/// A fault of the format layer.
pub fn format_error(text: &str) -> (e: Error)
    ensures
        e@ == publication_message(text@),
{
    Error::Internal {
        message: String::from_str("physical generation publication failed: ").concat(text),
    }
}

/// What the publisher said when it refused a generation.
#[derive(Debug, Clone, Copy, PartialEq, Eq, Structural)]
pub enum PublisherFault {
    /// The build started from another generation than is published now.
    ForeignSource,
    /// The selected generation moved on since the plan.
    StaleBoundary,
    Other,
}

/// Why a sealed segment could not be published.
#[derive(Debug)]
pub struct DataSegmentPublicationError {
    pub error: Error,
    pub stale_source: bool,
}

impl DataSegmentPublicationError {
    /// An error of any other step.
    pub fn plain(error: Error) -> (r: Self)
        ensures
            r.error@ == error@,
            !r.stale_source,
    {
        DataSegmentPublicationError { error, stale_source: false }
    }

    /// Whether the seal may be tried again from the current generation.
    pub fn is_stale_source(&self) -> (r: bool)
        ensures
            r == self.stale_source,
    {
        self.stale_source
    }

    pub fn into_error(self) -> (e: Error)
        ensures
            e == self.error,
    {
        self.error
    }
}

/// A refused seal.
pub fn data_segment_publication_error(fault: PublisherFault, text: &str) -> (
    r: DataSegmentPublicationError)
    ensures
        r.error@ == publication_message(text@),
        r.stale_source == (fault == PublisherFault::ForeignSource),
{
    DataSegmentPublicationError {
        error: format_error(text),
        stale_source: fault == PublisherFault::ForeignSource,
    }
}

/// Reason of a merge whose inputs or generation moved on.
pub open spec fn stale_abort(detail: Seq<char>) -> ErrorView {
    ErrorView::Internal(abort_message(stale_reason(), detail))
}

pub fn stale_publication(detail: &str) -> (e: Error)
    ensures
        e@ == stale_abort(detail@),
{
    compaction_abort("physical_generation_stale", detail)
}

/// A refused merge. A generation that moved on only cancels it.
pub fn compaction_publication_error(fault: PublisherFault, text: &str) -> (e: Error)
    ensures
        e@ == (if fault == PublisherFault::StaleBoundary {
            stale_abort("CONTROL advanced after compaction planning"@)
        } else {
            publication_message(text@)
        }),
{
    if fault == PublisherFault::StaleBoundary {
        return stale_publication("CONTROL advanced after compaction planning");
    }
    format_error(text)
}

/// The transaction frontier that a generation records.
pub open spec fn recorded_high_water(persisted: u64, owner: Option<i64>) -> int {
    match owner {
        Some(mark) => spec_max(persisted as int, spec_max(mark as int, 0)),
        None => persisted as int,
    }
}

/// Never below what the current generation recorded.
pub fn publication_transaction_high_water(persisted: u64, owner: Option<i64>) -> (r: u64)
    ensures
        r == recorded_high_water(persisted, owner),
{
    match owner {
        Some(mark) => {
            if mark > 0 && mark as u64 > persisted {
                mark as u64
            } else {
                persisted
            }
        },
        None => persisted,
    }
}

/// What a checkpoint has to do.
#[derive(Debug, Clone, Copy, PartialEq, Eq, Structural)]
pub enum CheckpointStep {
    /// The boundary is already published.
    Nothing,
    Publish { target_generation: u64, floor: WalReplayFloor },
}

/// Why a checkpoint may not be published, or what it publishes.
/// `target_generation` is the generation after the selected one, or the text
/// of the fault that there is none.
pub open spec fn checkpoint_gate(
    lsn: u64,
    wal_generation: u64,
    publisher: bool,
    control: ControlRecord,
    target_generation: Result<u64, Seq<char>>,
    meta: CatalogMeta,
) -> Result<CheckpointStep, ErrorView> {
    if lsn == 0 {
        Err(
            ErrorView::Internal(
                "physical checkpoint requires a non-zero durable WAL boundary"@,
            ),
        )
    } else if !publisher {
        Err(
            ErrorView::Internal(
                "physical generation publisher is unavailable during checkpoint"@,
            ),
        )
    } else if lsn < control.wal_replay_floor.lsn {
        Err(ErrorView::Internal("physical checkpoint WAL boundary regresses below CONTROL"@))
    } else if lsn == control.wal_replay_floor.lsn {
        Ok(CheckpointStep::Nothing)
    } else {
        match target_generation {
            Err(text) => Err(publication_message(text)),
            Ok(target) => if wal_generation <= control.wal_replay_floor.generation {
                Err(
                    ErrorView::Internal(
                        "physical checkpoint WAL generation does not advance CONTROL"@,
                    ),
                )
            } else {
                match identity_refusal(meta, control) {
                    Some(e) => Err(e),
                    None => Ok(
                        CheckpointStep::Publish {
                            target_generation: target,
                            floor: WalReplayFloor { generation: wal_generation, lsn },
                        },
                    ),
                }
            },
        }
    }
}

pub open spec fn fault_text(r: Result<u64, String>) -> Result<u64, Seq<char>> {
    match r {
        Ok(n) => Ok(n),
        Err(text) => Err(text@),
    }
}

/// Decides on a checkpoint. The boundary must lie beyond the published floor,
/// in a later log generation; without a committed suffix there is no work.
pub fn publish_checkpoint_generation(
    checkpoint_lsn: u64,
    target_wal_generation: u64,
    publisher: bool,
    control: ControlRecord,
    target_generation: Result<u64, String>,
    meta: CatalogMeta,
) -> (r: Result<CheckpointStep, Error>)
    ensures
        match r {
            Ok(step) => checkpoint_gate(
                checkpoint_lsn,
                target_wal_generation,
                publisher,
                control,
                fault_text(target_generation),
                meta,
            ) == Ok::<CheckpointStep, ErrorView>(step),
            Err(e) => checkpoint_gate(
                checkpoint_lsn,
                target_wal_generation,
                publisher,
                control,
                fault_text(target_generation),
                meta,
            ) == Err::<CheckpointStep, ErrorView>(e@),
        },
{
    if checkpoint_lsn == 0 {
        return Err(
            Error::internal("physical checkpoint requires a non-zero durable WAL boundary"),
        );
    }
    if !publisher {
        return Err(
            Error::internal("physical generation publisher is unavailable during checkpoint"),
        );
    }
    if checkpoint_lsn < control.wal_replay_floor.lsn {
        return Err(Error::internal("physical checkpoint WAL boundary regresses below CONTROL"));
    }
    if checkpoint_lsn == control.wal_replay_floor.lsn {
        return Ok(CheckpointStep::Nothing);
    }
    let target: u64 = match target_generation {
        Ok(target) => target,
        Err(text) => {
            return Err(format_error(text.as_str()));
        },
    };
    if target_wal_generation <= control.wal_replay_floor.generation {
        return Err(
            Error::internal("physical checkpoint WAL generation does not advance CONTROL"),
        );
    }
    match validate_catalog_identity(meta, control) {
        Err(e) => Err(e),
        Ok(()) => Ok(
            CheckpointStep::Publish {
                target_generation: target,
                floor: WalReplayFloor { generation: target_wal_generation, lsn: checkpoint_lsn },
            },
        ),
    }
}

/// Whether the catalog is staged anew: only a generation that the physical
/// root does not have yet.
pub fn stages_catalog(meta: CatalogMeta, current: CatalogRoot) -> (r: bool)
    ensures
        r == (meta.catalog_generation != current.generation),
{
    meta.catalog_generation != current.generation
}

/// A generation is written to the slot that its predecessor does not occupy,
/// so the predecessor survives a torn write; two publications later the slot
/// comes round again.
pub proof fn law_publication_keeps_predecessor(slot: ControlSlotIndex)
    ensures
        other_slot(slot) != slot,
        other_slot(other_slot(slot)) == slot,
{
}

/// A published checkpoint moves both parts of the replay floor forward.
pub proof fn law_checkpoint_advances_floor(
    lsn: u64,
    wal_generation: u64,
    publisher: bool,
    control: ControlRecord,
    target_generation: Result<u64, Seq<char>>,
    meta: CatalogMeta,
    step: CheckpointStep,
)
    requires
        checkpoint_gate(lsn, wal_generation, publisher, control, target_generation, meta) == Ok::<
            CheckpointStep,
            ErrorView,
        >(step),
    ensures
        match step {
            CheckpointStep::Nothing => lsn == control.wal_replay_floor.lsn,
            CheckpointStep::Publish { target_generation: _, floor } => floor.lsn
                > control.wal_replay_floor.lsn && floor.generation
                > control.wal_replay_floor.generation && follows_control(meta, control),
        },
{
}

/// A generation's transaction frontier never falls below its predecessor's.
pub proof fn law_transaction_frontier_is_monotone(persisted: u64, owner: Option<i64>)
    ensures
        persisted <= recorded_high_water(persisted, owner) <= u64::MAX,
        owner matches Some(mark) ==> mark <= recorded_high_water(persisted, owner),
{
}

} // verus!
