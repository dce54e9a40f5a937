//! Publishing sealed rows and merged rows.
use super::catalog::columns_refusal;
use super::catalog::is_complete_pack;
use super::catalog::listed_columns;
use super::catalog::pack_refusal;
use super::catalog::table_accelerators;
use super::catalog::table_columns;
use super::catalog::AcceleratorSpec;
use super::catalog::CatalogObject;
use super::catalog::DataColumnSpec;
use super::control::fault_text;
use super::control::format_error;
use super::control::identity_refusal;
use super::control::is_selected;
use super::control::publication_message;
use super::control::stale_publication;
use super::control::validate_catalog_identity;
use super::control::CatalogMeta;
use super::control::ControlRecord;
use super::control::DataSegmentPublicationError;
use super::generation::assemble_generation;
use super::generation::is_generation;
use super::generation::GenerationRequest;
use super::generation::PlannedGeneration;
use super::manifests::manifests_refused;
use super::segments::change_views;
use super::segments::compaction_inputs;
use super::segments::expected_removals;
use super::segments::input_descriptors;
use super::segments::input_id;
use super::segments::input_refusal;
use super::segments::newest_transaction;
use super::segments::oldest_transaction;
use super::segments::optional_segments;
use super::segments::rebase_refusal;
use super::segments::removal_refusal;
use super::segments::segment_of;
use super::segments::validate_rebase;
use super::segments::ArtifactRef;
use super::segments::ChangeView;
use super::segments::CompactionInput;
use super::segments::CompactionInputs;
use super::segments::SegmentDescriptor;
use super::segments::TableSegmentChange;
use crate::error::earlier;
use crate::error::first_refusal;
use crate::error::refusal;
use crate::error::Error;
use crate::error::ErrorView;
use crate::num::sat64;
use crate::num::spec_max;
use crate::recovery::artifacts::SegmentKind;
use crate::recovery::artifacts::SegmentTier;
use vstd::prelude::*;
use vstd::string::StringExecFns;

verus! {

/// Groups that hold so many rows, the last one perhaps not full.
pub open spec fn group_count(rows: int, group_rows: int) -> int {
    if rows % group_rows == 0 {
        rows / group_rows
    } else {
        rows / group_rows + 1
    }
}

/// Row and group counts of a DATA artifact.
#[derive(Debug, Clone, Copy, PartialEq, Eq, Structural)]
pub struct ArtifactShape {
    pub row_count: u64,
    pub column_count: u32,
    pub row_group_count: u32,
}

/// Why an artifact cannot have a shape. `row_group_rows` is the planned size
/// of a group, or the text of the fault that there is none.
pub open spec fn shape_refusal(
    row_count: int,
    column_count: int,
    row_group_rows: Result<u32, Seq<char>>,
) -> Option<ErrorView> {
    if column_count > u32::MAX {
        Some(ErrorView::Internal("DATA column count exceeds u32"@))
    } else {
        match row_group_rows {
            Err(text) => Some(publication_message(text)),
            Ok(rows) => if group_count(row_count, rows as int) > u32::MAX {
                Some(ErrorView::Internal("DATA row-group count exceeds u32"@))
            } else {
                None
            },
        }
    }
}

pub open spec fn group_rows_text(r: Result<u32, String>) -> Result<u32, Seq<char>> {
    match r {
        Ok(n) => Ok(n),
        Err(text) => Err(text@),
    }
}

/// The shape of an artifact.
pub fn artifact_shape(row_count: u64, column_count: usize, row_group_rows: &Result<u32, String>) -> (
    r: Result<ArtifactShape, Error>)
    requires
        row_group_rows matches Ok(n) ==> n > 0,
    ensures
        refusal(r) == shape_refusal(
            row_count as int,
            column_count as int,
            group_rows_text(*row_group_rows),
        ),
        r matches Ok(s) ==> s.row_count == row_count && s.column_count == column_count
            && s.row_group_count == group_count(row_count as int, row_group_rows->Ok_0 as int),
{
    if column_count as u64 > 0xffff_ffff {
        return Err(Error::internal("DATA column count exceeds u32"));
    }
    let group_rows: u64 = match row_group_rows {
        Ok(n) => *n as u64,
        Err(text) => {
            return Err(format_error(text.as_str()));
        },
    };
    let full: u64 = row_count / group_rows;
    let rest: u64 = row_count % group_rows;
    if rest == 0 {
        if full > 0xffff_ffff {
            return Err(Error::internal("DATA row-group count exceeds u32"));
        }
        Ok(
            ArtifactShape {
                row_count,
                column_count: column_count as u32,
                row_group_count: full as u32,
            },
        )
    } else {
        if full >= 0xffff_ffff {
            return Err(Error::internal("DATA row-group count exceeds u32"));
        }
        Ok(
            ArtifactShape {
                row_count,
                column_count: column_count as u32,
                row_group_count: (full + 1) as u32,
            },
        )
    }
}

/// A row as wide as its schema: missing columns take their defaults, extra
/// ones are dropped.
pub open spec fn fitted_row<T>(row: Seq<T>, defaults: Seq<T>) -> Seq<T> {
    if row.len() < defaults.len() {
        row + defaults.skip(row.len() as int)
    } else {
        row.take(defaults.len() as int)
    }
}

/// Fits a row to its schema; `defaults` has one value for each column.
pub fn normalized_source_row<T>(row: Vec<T>, defaults: Vec<T>) -> (r: Vec<T>)
    ensures
        r@ == fitted_row(row@, defaults@),
{
    let ghost before = row@;
    let ghost all = defaults@;
    let mut row: Vec<T> = row;
    let mut defaults: Vec<T> = defaults;
    if row.len() < defaults.len() {
        let mut rest: Vec<T> = defaults.split_off(row.len());
        assert(rest@ =~= all.skip(before.len() as int));
        row.append(&mut rest);
        assert(row@ =~= fitted_row(before, all));
    } else {
        row.truncate(defaults.len());
        assert(row@ =~= fitted_row(before, all));
    }
    row
}

/// A seal that may go ahead.
#[derive(Debug, Clone, Copy, PartialEq, Eq, Structural)]
pub struct SealPlan {
    pub table_id: u128,
    pub target_generation: u64,
    pub transaction_high_water: u64,
    pub first_row_id: u64,
    pub last_row_id: u64,
    pub shape: ArtifactShape,
}

/// The table that rows are sealed for: absent, or its identity, or the text
/// of the fault in it.
pub open spec fn table_identity(
    table_name: Seq<char>,
    table: Option<Result<u128, Seq<char>>>,
) -> Result<u128, ErrorView> {
    match table {
        None => Err(ErrorView::TableNotFound(table_name)),
        Some(Err(text)) => Err(
            ErrorView::Internal("invalid table catalog identity: "@ + text),
        ),
        Some(Ok(id)) => Ok(id),
    }
}

pub open spec fn table_text(table: Option<Result<u128, String>>) -> Option<Result<u128, Seq<char>>> {
    match table {
        None => None,
        Some(Ok(id)) => Some(Ok(id)),
        Some(Err(text)) => Some(Err(text@)),
    }
}

fn resolve_table(table_name: &str, table: &Option<Result<u128, String>>) -> (r: Result<u128, Error>)
    ensures
        match r {
            Ok(id) => table_identity(table_name@, table_text(*table)) == Ok::<u128, ErrorView>(id),
            Err(e) => table_identity(table_name@, table_text(*table)) == Err::<u128, ErrorView>(
                e@,
            ),
        },
{
    match table {
        None => Err(Error::TableNotFound(String::from_str(table_name))),
        Some(Err(text)) => Err(
            Error::Internal {
                message: String::from_str("invalid table catalog identity: ").concat(
                    text.as_str(),
                ),
            },
        ),
        Some(Ok(id)) => Ok(*id),
    }
}

/// What a seal is decided on.
#[derive(Debug)]
pub struct SealRequest {
    /// Identities of the rows in their order, as an artifact encodes them.
    pub row_ids: Vec<u64>,
    pub publisher: bool,
    pub control: ControlRecord,
    /// Generation after the selected one, or the text of the fault.
    pub target_generation: Result<u64, String>,
    /// The pinned catalog, or the fault of the pin.
    pub meta: Result<CatalogMeta, Error>,
    pub table: Option<Result<u128, String>>,
    /// The objects of the pinned catalog.
    pub objects: Vec<CatalogObject>,
    pub row_group_rows: Result<u32, String>,
    /// Transaction frontier of the log, where there is one.
    pub log_high_water: Option<i64>,
}

pub open spec fn sealed_high_water(mark: Option<i64>) -> int {
    match mark {
        Some(m) => spec_max(m as int, 1),
        None => 1,
    }
}

/// Why rows may not be sealed, in the order in which it is found.
pub open spec fn seal_refusal(table_name: Seq<char>, q: SealRequest) -> Option<ErrorView> {
    if q.row_ids@.len() == 0 {
        Some(ErrorView::Internal("cannot publish an empty DATA segment"@))
    } else if !q.publisher {
        Some(
            ErrorView::Internal("physical generation publisher is unavailable during seal"@),
        )
    } else if q.target_generation is Err {
        Some(publication_message(q.target_generation->Err_0@))
    } else {
        match q.meta {
            Err(e) => Some(e@),
            Ok(meta) => match identity_refusal(meta, q.control) {
                Some(e) => Some(e),
                None => match table_identity(table_name, table_text(q.table)) {
                    Err(e) => Some(e),
                    Ok(id) => match columns_refusal(q.objects@, id) {
                        Some(e) => Some(e),
                        None => earlier(
                            shape_refusal(
                                q.row_ids@.len() as int,
                                listed_columns(q.objects@, id).len() as int,
                                group_rows_text(q.row_group_rows),
                            ),
                            pack_refusal(q.objects@, id),
                        ),
                    },
                },
            },
        }
    }
}

/// A seal that may go ahead, with what its artifacts hold.
#[derive(Debug)]
pub struct PlannedSeal {
    pub plan: SealPlan,
    pub columns: Vec<DataColumnSpec>,
    /// The complete pack to build beside the rows, if there is one.
    pub accelerators: Option<Vec<AcceleratorSpec>>,
}

/// Decides whether rows may be sealed into a segment. No refusal of these is
/// a stale source.
pub fn publish_data_segment(table_name: &str, q: SealRequest) -> (r: Result<
    PlannedSeal,
    DataSegmentPublicationError,
>)
    requires
        q.row_group_rows matches Ok(n) ==> n > 0,
    ensures
        match r {
            Err(e) => seal_refusal(table_name@, q) == Some(e.error@) && !e.stale_source,
            Ok(seal) => {
                let plan = seal.plan;
                &&& seal_refusal(table_name@, q) is None
                &&& q.table == Some(Ok::<u128, String>(plan.table_id))
                &&& q.target_generation == Ok::<u64, String>(plan.target_generation)
                &&& plan.transaction_high_water == sealed_high_water(q.log_high_water)
                &&& plan.first_row_id == q.row_ids@.first()
                &&& plan.last_row_id == q.row_ids@.last()
                &&& plan.shape.row_count == q.row_ids@.len()
                &&& seal.columns@ == listed_columns(q.objects@, plan.table_id)
                &&& is_complete_pack(q.objects@, plan.table_id, seal.accelerators)
                &&& plan.shape.column_count == seal.columns@.len()
                &&& plan.shape.row_group_count == group_count(
                    q.row_ids@.len() as int,
                    q.row_group_rows->Ok_0 as int,
                )
            },
        },
{
    if q.row_ids.len() == 0 {
        return Err(
            DataSegmentPublicationError::plain(
                Error::internal("cannot publish an empty DATA segment"),
            ),
        );
    }
    if !q.publisher {
        return Err(
            DataSegmentPublicationError::plain(
                Error::internal("physical generation publisher is unavailable during seal"),
            ),
        );
    }
    let target_generation: u64 = match q.target_generation {
        Ok(n) => n,
        Err(text) => {
            return Err(DataSegmentPublicationError::plain(format_error(text.as_str())));
        },
    };
    let meta: CatalogMeta = match q.meta {
        Ok(meta) => meta,
        Err(e) => {
            return Err(DataSegmentPublicationError::plain(e));
        },
    };
    match validate_catalog_identity(meta, q.control) {
        Err(e) => {
            return Err(DataSegmentPublicationError::plain(e));
        },
        Ok(()) => {},
    }
    let table_id: u128 = match resolve_table(table_name, &q.table) {
        Ok(id) => id,
        Err(e) => {
            return Err(DataSegmentPublicationError::plain(e));
        },
    };
    let columns: Vec<DataColumnSpec> = match table_columns(&q.objects, table_id) {
        Ok(columns) => columns,
        Err(e) => {
            return Err(DataSegmentPublicationError::plain(e));
        },
    };
    let shape: ArtifactShape = match artifact_shape(
        q.row_ids.len() as u64,
        columns.len(),
        &q.row_group_rows,
    ) {
        Ok(shape) => shape,
        Err(e) => {
            return Err(DataSegmentPublicationError::plain(e));
        },
    };
    let accelerators: Option<Vec<AcceleratorSpec>> = match table_accelerators(
        &q.objects,
        table_id,
    ) {
        Ok(accelerators) => accelerators,
        Err(e) => {
            return Err(DataSegmentPublicationError::plain(e));
        },
    };
    let transaction_high_water: u64 = match q.log_high_water {
        Some(mark) => if mark > 1 {
            mark as u64
        } else {
            1
        },
        None => 1,
    };
    let first_row_id: u64 = q.row_ids[0];
    let last_row_id: u64 = q.row_ids[q.row_ids.len() - 1];
    let plan = SealPlan {
        table_id,
        target_generation,
        transaction_high_water,
        first_row_id,
        last_row_id,
        shape,
    };
    Ok(PlannedSeal { plan, columns, accelerators })
}

/// The segment that a seal adds: fresh, with every transaction so far.
pub fn sealed_descriptor(
    plan: SealPlan,
    segment_id: u128,
    data: ArtifactRef,
    index: Option<ArtifactRef>,
) -> (r: SegmentDescriptor)
    ensures
        r == (SegmentDescriptor {
            id: segment_id,
            kind: SegmentKind::Rows,
            tier: SegmentTier::L0,
            min_transaction_id: 1,
            max_transaction_id: plan.transaction_high_water,
            row_count: plan.shape.row_count,
            first_row_id: plan.first_row_id,
            last_row_id: plan.last_row_id,
            data,
            index,
        }),
{
    SegmentDescriptor {
        id: segment_id,
        kind: SegmentKind::Rows,
        tier: SegmentTier::L0,
        min_transaction_id: 1,
        max_transaction_id: plan.transaction_high_water,
        row_count: plan.shape.row_count,
        first_row_id: plan.first_row_id,
        last_row_id: plan.last_row_id,
        data,
        index,
    }
}

/// Refuses an artifact that was not written where its identity puts it.
pub fn check_locator(writer: &str, written: &str, canonical: &str) -> (r: Result<(), Error>)
    ensures
        refusal(r) == (if written@ == canonical@ {
            None
        } else {
            Some(
                ErrorView::Internal(writer@ + " writer returned a non-canonical artifact locator"@),
            )
        }),
{
    if crate::text::same_text(written, canonical) {
        Ok(())
    } else {
        Err(
            Error::Internal {
                message: String::from_str(writer).concat(
                    " writer returned a non-canonical artifact locator",
                ),
            },
        )
    }
}

/// An artifact with the place it was written to and the place its identity
/// gives it.
#[derive(Debug)]
pub struct WrittenArtifact {
    pub artifact: ArtifactRef,
    pub path: String,
    pub locator: String,
}

/// Rows that were written and wait to be published.
#[derive(Debug)]
pub struct WrittenSegment {
    pub segment_id: u128,
    pub data: WrittenArtifact,
    pub index: Option<WrittenArtifact>,
}

pub open spec fn locator_refusal(writer: Seq<char>, w: WrittenArtifact) -> Option<ErrorView> {
    if w.path@ == w.locator@ {
        None
    } else {
        Some(ErrorView::Internal(writer + " writer returned a non-canonical artifact locator"@))
    }
}

/// Why written rows cannot be published, in the order in which it is found.
pub open spec fn written_refusal(w: WrittenSegment) -> Option<ErrorView> {
    match w.index {
        Some(index) if locator_refusal("INDEX"@, index) is Some => locator_refusal(
            "INDEX"@,
            index,
        ),
        _ => locator_refusal("DATA"@, w.data),
    }
}

/// The segment that written rows become.
pub open spec fn written_descriptor(plan: SealPlan, w: WrittenSegment) -> SegmentDescriptor {
    SegmentDescriptor {
        id: w.segment_id,
        kind: SegmentKind::Rows,
        tier: SegmentTier::L0,
        min_transaction_id: 1,
        max_transaction_id: plan.transaction_high_water,
        row_count: plan.shape.row_count,
        first_row_id: plan.first_row_id,
        last_row_id: plan.last_row_id,
        data: w.data.artifact,
        index: match w.index {
            Some(index) => Some(index.artifact),
            None => None,
        },
    }
}

/// The change that adds one segment to a table.
pub open spec fn appended(table_id: u128, segment: SegmentDescriptor) -> ChangeView {
    ChangeView {
        table_id,
        additions: seq![segment],
        removals: Seq::empty(),
        tombstone_ack: None,
    }
}

/// A sealed segment with the generation that lists it.
#[derive(Debug)]
pub struct SealedGeneration {
    pub descriptor: SegmentDescriptor,
    pub generation: PlannedGeneration,
}

/// Puts the generation of written rows together. Its replay floor is the one
/// that is selected now: only a checkpoint moves it.
pub fn seal_generation(plan: SealPlan, w: &WrittenSegment, q: &GenerationRequest) -> (r: Result<
    SealedGeneration,
    DataSegmentPublicationError,
>)
    ensures
        match r {
            Ok(s) => {
                &&& written_refusal(*w) is None
                &&& s.descriptor == written_descriptor(plan, *w)
                &&& is_generation(
                    *q,
                    seq![appended(plan.table_id, s.descriptor)],
                    plan.target_generation,
                    q.control.wal_replay_floor,
                    s.generation,
                )
            },
            Err(e) => !e.stale_source && match written_refusal(*w) {
                Some(found) => e.error@ == found,
                None => manifests_refused(
                    q.tables@,
                    seq![appended(plan.table_id, written_descriptor(plan, *w))],
                    e.error@,
                ),
            },
        },
{
    let index: Option<ArtifactRef> = match &w.index {
        Some(index) => {
            match check_locator("INDEX", index.path.as_str(), index.locator.as_str()) {
                Err(e) => {
                    return Err(DataSegmentPublicationError::plain(e));
                },
                Ok(()) => {},
            }
            Some(index.artifact)
        },
        None => None,
    };
    match check_locator("DATA", w.data.path.as_str(), w.data.locator.as_str()) {
        Err(e) => {
            return Err(DataSegmentPublicationError::plain(e));
        },
        Ok(()) => {},
    }
    let descriptor: SegmentDescriptor = sealed_descriptor(
        plan,
        w.segment_id,
        w.data.artifact,
        index,
    );
    let mut changes: Vec<TableSegmentChange> = Vec::new();
    changes.push(TableSegmentChange::append(plan.table_id, descriptor));
    assert(change_views(changes@) =~= seq![appended(plan.table_id, descriptor)]);
    match assemble_generation(q, &changes, plan.target_generation, q.control.wal_replay_floor) {
        Err(e) => Err(DataSegmentPublicationError::plain(e)),
        Ok(generation) => Ok(SealedGeneration { descriptor, generation }),
    }
}

/// A merge being published.
#[derive(Debug)]
pub struct CompactionPublication {
    pub table_id: u128,
    pub columns: Vec<DataColumnSpec>,
    /// The complete pack to build beside the rows, if there is one.
    pub accelerators: Option<Vec<AcceleratorSpec>>,
    pub expected_control: ControlRecord,
    pub target_generation: u64,
    pub min_transaction_id: u64,
    pub max_transaction_id: u64,
    pub expected_inputs: Vec<SegmentDescriptor>,
    pub removals: Vec<u128>,
    pub additions: Vec<SegmentDescriptor>,
    pub cleanup_staging: bool,
}

/// What the start of a merge's publication is decided on.
#[derive(Debug)]
pub struct CompactionRequest {
    pub inputs: Vec<CompactionInput>,
    pub publisher: bool,
    pub control: ControlRecord,
    pub target_generation: Result<u64, String>,
    pub meta: Result<CatalogMeta, Error>,
    pub table: Option<Result<u128, String>>,
    /// Segments of the table in the selected generation.
    pub manifest: Option<Vec<SegmentDescriptor>>,
    /// The objects of the pinned catalog.
    pub objects: Vec<CatalogObject>,
}

/// Why a merge may not be published, in the order in which it is found.
pub open spec fn compaction_refusal(table_name: Seq<char>, q: CompactionRequest) -> Option<ErrorView> {
    if q.inputs@.len() == 0 {
        Some(ErrorView::Internal("compaction publication has no inputs"@))
    } else if !q.publisher {
        Some(
            ErrorView::Internal(
                "physical generation publisher is unavailable during compaction"@,
            ),
        )
    } else if q.target_generation is Err {
        Some(publication_message(q.target_generation->Err_0@))
    } else {
        match q.meta {
            Err(e) => Some(e@),
            Ok(meta) => match identity_refusal(meta, q.control) {
                Some(e) => Some(e),
                None => if !is_selected(meta, q.control) {
                    Some(
                        ErrorView::Internal(
                            "compaction requires the CONTROL-selected catalog generation"@,
                        ),
                    )
                } else {
                    match table_identity(table_name, table_text(q.table)) {
                        Err(e) => Some(e),
                        Ok(id) => match q.manifest {
                            None => Some(
                                ErrorView::Internal(
                                    "compacted table is absent from physical generation"@,
                                ),
                            ),
                            Some(manifest) => earlier(
                                first_refusal(
                                    0,
                                    q.inputs@.len() as int,
                                    |i: int| input_refusal(manifest@, q.inputs@, i),
                                ),
                                earlier(
                                    columns_refusal(q.objects@, id),
                                    pack_refusal(q.objects@, id),
                                ),
                            ),
                        },
                    }
                },
            },
        }
    }
}

/// Starts the publication of a merge against the selected generation.
pub fn begin_compaction_publication(table_name: &str, q: CompactionRequest) -> (r: Result<
    CompactionPublication,
    Error,
>)
    ensures
        refusal(r) == compaction_refusal(table_name@, q),
        r matches Ok(p) ==> {
            let wanted = input_descriptors(q.manifest->Some_0@, q.inputs@);
            &&& q.table == Some(Ok::<u128, String>(p.table_id))
            &&& p.columns@ == listed_columns(q.objects@, p.table_id)
            &&& is_complete_pack(q.objects@, p.table_id, p.accelerators)
            &&& p.expected_control == q.control
            &&& q.target_generation == Ok::<u64, String>(p.target_generation)
            &&& p.expected_inputs@ == wanted
            &&& p.removals@ == q.inputs@.map_values(|x: CompactionInput| input_id(x))
            &&& p.min_transaction_id == oldest_transaction(wanted, wanted.len() as int)
            &&& p.max_transaction_id == newest_transaction(wanted, wanted.len() as int)
            &&& p.additions@.len() == 0
            &&& p.cleanup_staging
        },
{
    if q.inputs.len() == 0 {
        return Err(Error::internal("compaction publication has no inputs"));
    }
    if !q.publisher {
        return Err(
            Error::internal("physical generation publisher is unavailable during compaction"),
        );
    }
    let target_generation: u64 = match q.target_generation {
        Ok(n) => n,
        Err(text) => {
            return Err(format_error(text.as_str()));
        },
    };
    let meta: CatalogMeta = match q.meta {
        Ok(meta) => meta,
        Err(e) => {
            return Err(e);
        },
    };
    match validate_catalog_identity(meta, q.control) {
        Err(e) => {
            return Err(e);
        },
        Ok(()) => {},
    }
    if meta.catalog_generation != q.control.catalog.generation || meta.catalog_id
        != q.control.catalog.id {
        return Err(
            Error::internal("compaction requires the CONTROL-selected catalog generation"),
        );
    }
    let table_id: u128 = match resolve_table(table_name, &q.table) {
        Ok(id) => id,
        Err(e) => {
            return Err(e);
        },
    };
    let manifest: &Vec<SegmentDescriptor> = match &q.manifest {
        Some(m) => m,
        None => {
            return Err(Error::internal("compacted table is absent from physical generation"));
        },
    };
    let inputs: CompactionInputs = match compaction_inputs(manifest, &q.inputs) {
        Ok(inputs) => inputs,
        Err(e) => {
            return Err(e);
        },
    };
    let columns: Vec<DataColumnSpec> = match table_columns(&q.objects, table_id) {
        Ok(columns) => columns,
        Err(e) => {
            return Err(e);
        },
    };
    let accelerators: Option<Vec<AcceleratorSpec>> = match table_accelerators(
        &q.objects,
        table_id,
    ) {
        Ok(accelerators) => accelerators,
        Err(e) => {
            return Err(e);
        },
    };
    Ok(
        CompactionPublication {
            table_id,
            columns,
            accelerators,
            expected_control: q.control,
            target_generation,
            min_transaction_id: inputs.min_transaction_id,
            max_transaction_id: inputs.max_transaction_id,
            expected_inputs: inputs.expected,
            removals: inputs.removals,
            additions: Vec::new(),
            cleanup_staging: true,
        },
    )
}

/// The rows of one merged artifact: their first and last identities, each
/// perhaps unreadable.
#[derive(Debug)]
pub struct MergedRange {
    pub row_count: usize,
    pub first: Result<i64, Error>,
    pub last: Result<i64, Error>,
    pub row_group_rows: Result<u32, String>,
}

/// Why a range cannot be staged, in the order in which it is found.
pub open spec fn range_refusal(column_count: int, range: MergedRange) -> Option<ErrorView> {
    if range.row_count == 0 {
        Some(ErrorView::Internal("cannot stage an empty compaction DATA artifact"@))
    } else {
        match range.first {
            Err(e) => Some(e@),
            Ok(first) => if first < 0 {
                Some(ErrorView::Internal("compaction DATA has an invalid first row ID"@))
            } else {
                match range.last {
                    Err(e) => Some(e@),
                    Ok(last) => if last < 0 {
                        Some(ErrorView::Internal("compaction DATA has an invalid last row ID"@))
                    } else {
                        shape_refusal(
                            range.row_count as int,
                            column_count,
                            group_rows_text(range.row_group_rows),
                        )
                    },
                }
            },
        }
    }
}

/// A merged artifact that may be written.
#[derive(Debug, Clone, Copy, PartialEq, Eq, Structural)]
pub struct MergedArtifact {
    pub first_row_id: u64,
    pub last_row_id: u64,
    pub shape: ArtifactShape,
}

/// What was staged of a merge.
#[derive(Debug, Clone, Copy, PartialEq, Eq, Structural)]
pub struct StagedCompactionSegment {
    pub row_count: u64,
    pub physical_bytes: u64,
    pub has_index: bool,
}

/// Bytes of an artifact pair.
pub open spec fn pair_bytes(data: ArtifactRef, index: Option<ArtifactRef>) -> int {
    sat64(
        data.byte_length + match index {
            Some(i) => i.byte_length as int,
            None => 0,
        },
    )
}

/// Artifacts of the segments below `n`, each DATA before its INDEX.
pub open spec fn prebuilt(additions: Seq<SegmentDescriptor>, n: int) -> Seq<ArtifactRef>
    decreases n,
{
    if n <= 0 {
        Seq::empty()
    } else {
        let before = prebuilt(additions, n - 1).push(additions[n - 1].data);
        match additions[n - 1].index {
            Some(index) => before.push(index),
            None => before,
        }
    }
}

/// A merge put on the generation that is selected now.
#[derive(Debug)]
pub struct RebasedCompaction {
    pub change: TableSegmentChange,
    pub expected_removals: Vec<SegmentDescriptor>,
    pub prebuilt_artifacts: Vec<ArtifactRef>,
    pub generation: PlannedGeneration,
}

/// Why a merge cannot be put on the selected generation, before its files are
/// looked at.
pub open spec fn publish_refusal(
    meta: CatalogMeta,
    control: ControlRecord,
    table: Option<Seq<SegmentDescriptor>>,
    expected_inputs: Seq<SegmentDescriptor>,
    target_generation: Result<u64, Seq<char>>,
) -> Option<ErrorView> {
    match rebase_refusal(meta, control, table, expected_inputs) {
        Some(e) => Some(e),
        None => match target_generation {
            Err(text) => Some(publication_message(text)),
            Ok(_) => None,
        },
    }
}

/// The first removal of a segment that the selected generation lost.
pub open spec fn removals_refusal(current: Seq<SegmentDescriptor>, removals: Seq<u128>) -> Option<
    ErrorView,
> {
    first_refusal(0, removals.len() as int, |k: int| removal_refusal(current, removals[k]))
}

/// The change of a merge, with the tombstones it replaces if any.
pub open spec fn merged_change(
    table_id: u128,
    additions: Seq<SegmentDescriptor>,
    removals: Seq<u128>,
    tombstones: Option<ChangeView>,
) -> ChangeView {
    ChangeView {
        table_id,
        additions: match tombstones {
            Some(t) => additions + t.additions,
            None => additions,
        },
        removals: match tombstones {
            Some(t) => removals + t.removals,
            None => removals,
        },
        tombstone_ack: None,
    }
}

pub open spec fn optional_change(change: Option<TableSegmentChange>) -> Option<ChangeView> {
    match change {
        Some(c) => Some(c@),
        None => None,
    }
}

impl CompactionPublication {
    /// Decides whether a range of merged rows may be written.
    pub fn plan_rows(&self, range: MergedRange) -> (r: Result<MergedArtifact, Error>)
        requires
            range.row_group_rows matches Ok(n) ==> n > 0,
        ensures
            refusal(r) == range_refusal(self.columns@.len() as int, range),
            r matches Ok(a) ==> {
                &&& a.first_row_id == range.first->Ok_0
                &&& a.last_row_id == range.last->Ok_0
                &&& a.shape.row_count == range.row_count
                &&& a.shape.column_count == self.columns@.len()
                &&& a.shape.row_group_count == group_count(
                    range.row_count as int,
                    range.row_group_rows->Ok_0 as int,
                )
            },
    {
        if range.row_count == 0 {
            return Err(Error::internal("cannot stage an empty compaction DATA artifact"));
        }
        let first: i64 = match range.first {
            Ok(id) => id,
            Err(e) => {
                return Err(e);
            },
        };
        if first < 0 {
            return Err(Error::internal("compaction DATA has an invalid first row ID"));
        }
        let last: i64 = match range.last {
            Ok(id) => id,
            Err(e) => {
                return Err(e);
            },
        };
        if last < 0 {
            return Err(Error::internal("compaction DATA has an invalid last row ID"));
        }
        match artifact_shape(range.row_count as u64, self.columns.len(), &range.row_group_rows) {
            Err(e) => Err(e),
            Ok(shape) => Ok(
                MergedArtifact { first_row_id: first as u64, last_row_id: last as u64, shape },
            ),
        }
    }

    /// Takes a written range in as a segment of the merged tier.
    pub fn stage_rows(
        &mut self,
        artifact: MergedArtifact,
        segment_id: u128,
        data: ArtifactRef,
        index: Option<ArtifactRef>,
    ) -> (r: StagedCompactionSegment)
        ensures
            r.row_count == artifact.shape.row_count,
            r.physical_bytes == pair_bytes(data, index),
            r.has_index == (index is Some),
            final(self).additions@ == old(self).additions@.push(
                SegmentDescriptor {
                    id: segment_id,
                    kind: SegmentKind::Rows,
                    tier: SegmentTier::L1,
                    min_transaction_id: old(self).min_transaction_id,
                    max_transaction_id: old(self).max_transaction_id,
                    row_count: artifact.shape.row_count,
                    first_row_id: artifact.first_row_id,
                    last_row_id: artifact.last_row_id,
                    data,
                    index,
                },
            ),
            final(self).table_id == old(self).table_id,
            final(self).columns == old(self).columns,
            final(self).accelerators == old(self).accelerators,
            final(self).expected_control == old(self).expected_control,
            final(self).target_generation == old(self).target_generation,
            final(self).min_transaction_id == old(self).min_transaction_id,
            final(self).max_transaction_id == old(self).max_transaction_id,
            final(self).expected_inputs@ == old(self).expected_inputs@,
            final(self).removals@ == old(self).removals@,
            final(self).cleanup_staging == old(self).cleanup_staging,
    {
        let index_bytes: u64 = match index {
            Some(i) => i.byte_length,
            None => 0,
        };
        self.additions.push(
            SegmentDescriptor {
                id: segment_id,
                kind: SegmentKind::Rows,
                tier: SegmentTier::L1,
                min_transaction_id: self.min_transaction_id,
                max_transaction_id: self.max_transaction_id,
                row_count: artifact.shape.row_count,
                first_row_id: artifact.first_row_id,
                last_row_id: artifact.last_row_id,
                data,
                index,
            },
        );
        StagedCompactionSegment {
            row_count: artifact.shape.row_count,
            physical_bytes: data.byte_length.saturating_add(index_bytes),
            has_index: index.is_some(),
        }
    }

    /// Puts the merge on the selected generation: its segments go in, its
    /// inputs go out, and so do the tombstones that it replaces. The catalog
    /// and the replay floor stay.
    pub fn publish(
        &self,
        q: &GenerationRequest,
        target_generation: Result<u64, String>,
        table: Option<&Vec<SegmentDescriptor>>,
        tombstones: Option<TableSegmentChange>,
    ) -> (r: Result<RebasedCompaction, Error>)
        ensures
            ({
                let change = merged_change(
                    self.table_id,
                    self.additions@,
                    self.removals@,
                    optional_change(tombstones),
                );
                match publish_refusal(
                    q.meta,
                    q.control,
                    optional_segments(table),
                    self.expected_inputs@,
                    fault_text(target_generation),
                ) {
                    Some(e) => refusal(r) == Some(e),
                    None => match r {
                        Ok(c) => {
                            &&& removals_refusal(table->Some_0@, change.removals) is None
                            &&& c.change@ == change
                            &&& c.expected_removals@ == change.removals.map_values(
                                |id: u128| segment_of(table->Some_0@, id, 0)->Some_0,
                            )
                            &&& c.prebuilt_artifacts@ == prebuilt(
                                self.additions@,
                                self.additions@.len() as int,
                            )
                            &&& is_generation(
                                *q,
                                seq![change],
                                target_generation->Ok_0,
                                q.control.wal_replay_floor,
                                c.generation,
                            )
                            &&& c.generation.control.catalog == q.control.catalog
                        },
                        Err(e) => manifests_refused(q.tables@, seq![change], e@) || (exists|
                            g: PlannedGeneration,
                        | #[trigger]
                            is_generation(
                                *q,
                                seq![change],
                                target_generation->Ok_0,
                                q.control.wal_replay_floor,
                                g,
                            )) && removals_refusal(table->Some_0@, change.removals) == Some(e@),
                    },
                }
            }),
    {
        match validate_rebase(q.meta, q.control, table, &self.expected_inputs) {
            Err(e) => {
                return Err(e);
            },
            Ok(()) => {},
        }
        let current: &Vec<SegmentDescriptor> = match table {
            Some(current) => current,
            None => {
                return Err(
                    stale_publication("selected table disappeared after compaction planning"),
                );
            },
        };
        let target: u64 = match target_generation {
            Ok(n) => n,
            Err(text) => {
                return Err(format_error(text.as_str()));
            },
        };
        let ghost change = merged_change(
            self.table_id,
            self.additions@,
            self.removals@,
            optional_change(tombstones),
        );
        let mut additions: Vec<SegmentDescriptor> = Vec::new();
        additions.extend_from_slice(self.additions.as_slice());
        assert(additions@ =~= self.additions@);
        let mut removals: Vec<u128> = Vec::new();
        removals.extend_from_slice(self.removals.as_slice());
        assert(removals@ =~= self.removals@);
        if let Some(t) = tombstones {
            let mut t: TableSegmentChange = t;
            additions.append(&mut t.additions);
            removals.append(&mut t.removals);
        }
        assert(additions@ =~= change.additions);
        assert(removals@ =~= change.removals);
        let mut changes: Vec<TableSegmentChange> = Vec::new();
        changes.push(
            TableSegmentChange {
                table_id: self.table_id,
                additions,
                removals,
                tombstone_ack: None,
            },
        );
        assert(change_views(changes@) =~= seq![change]);
        let generation: PlannedGeneration = match assemble_generation(
            q,
            &changes,
            target,
            q.control.wal_replay_floor,
        ) {
            Ok(g) => g,
            Err(e) => {
                return Err(e);
            },
        };
        let expected: Vec<SegmentDescriptor> = match expected_removals(
            current,
            &changes[0].removals,
        ) {
            Ok(e) => e,
            Err(e) => {
                return Err(e);
            },
        };
        let mut artifacts: Vec<ArtifactRef> = Vec::new();
        let mut i: usize = 0;
        while i < self.additions.len()
            invariant
                0 <= i <= self.additions@.len(),
                artifacts@ == prebuilt(self.additions@, i as int),
            decreases self.additions@.len() - i,
        {
            artifacts.push(self.additions[i].data);
            if let Some(index) = self.additions[i].index {
                artifacts.push(index);
            }
            i = i + 1;
        }
        Ok(
            RebasedCompaction {
                change: changes.remove(0),
                expected_removals: expected,
                prebuilt_artifacts: artifacts,
                generation,
            },
        )
    }

    /// The staged files now belong to a published generation.
    pub fn published(&mut self)
        ensures
            *final(self) == (CompactionPublication { cleanup_staging: false, ..*old(self) }),
    {
        self.cleanup_staging = false;
    }
}

/// Groups of the planned size hold all rows, and one group fewer would not.
pub proof fn law_groups_hold_every_row(rows: int, group_rows: int)
    requires
        rows > 0,
        group_rows > 0,
    ensures
        (group_count(rows, group_rows) - 1) * group_rows < rows <= group_count(rows, group_rows)
            * group_rows,
{
    vstd::arithmetic::div_mod::lemma_fundamental_div_mod(rows, group_rows);
    vstd::arithmetic::mul::lemma_mul_is_commutative(group_rows, rows / group_rows);
    vstd::arithmetic::mul::lemma_mul_is_distributive_add_other_way(
        group_rows,
        rows / group_rows,
        1,
    );
    vstd::arithmetic::mul::lemma_mul_is_distributive_sub_other_way(
        group_rows,
        rows / group_rows,
        1,
    );
}

/// Fitting a row to a schema makes it as wide as the schema and keeps every
/// value that the schema still has.
pub proof fn law_fitted_row_keeps_values<T>(row: Seq<T>, defaults: Seq<T>, column: int)
    requires
        0 <= column < defaults.len(),
    ensures
        fitted_row(row, defaults).len() == defaults.len(),
        fitted_row(row, defaults)[column] == if column < row.len() {
            row[column]
        } else {
            defaults[column]
        },
{
}

} // verus!
