//! Reading a physical generation back into the runtime.
//!
//! A table's manifest lists its segments by opaque identity. Runtime segment
//! identifiers say which segment is newer, so they are handed out again from
//! the transaction ranges that the segments record.
use crate::compaction::plan::SegmentLevel;
use crate::error::first_refusal;
use crate::error::outcome;
use crate::error::refusal;
use crate::error::Error;
use crate::error::ErrorView;
use crate::fx::tombstone_get;
use crate::fx::tombstone_insert;
use crate::fx::tombstone_map;
use crate::num::spec_max;
use crate::publication::catalog::find_object;
use crate::publication::catalog::object_of;
use crate::publication::catalog::CatalogObject;
use crate::publication::catalog::CatalogPayload;
use crate::publication::catalog::TypeObject;
use crate::schema::DataType;
use crate::sort::is_order;
use crate::sort::order_of;
use crate::sort::SortKey;
use crate::text::signed_decimal;
use crate::text::signed_decimal_digits;
use rustc_hash::FxHashMap;
use vstd::prelude::*;
use vstd::string::StringExecFns;

verus! {

/// What a segment holds.
#[derive(Debug, Clone, Copy, PartialEq, Eq, Structural)]
pub enum SegmentKind {
    Rows,
    Tombstones,
}

/// Tier that a manifest records for a segment.
#[derive(Debug, Clone, Copy, PartialEq, Eq, Structural)]
pub enum SegmentTier {
    L0,
    L1,
}

/// A segment as its table's manifest describes it.
#[derive(Debug, Clone, Copy, PartialEq, Eq, Structural)]
pub struct RecoveredSegment {
    pub id: u128,
    pub kind: SegmentKind,
    pub tier: SegmentTier,
    pub min_transaction_id: u64,
    pub max_transaction_id: u64,
    /// Generation that wrote the DATA artifact.
    pub creation_generation: u64,
    pub has_index: bool,
}

/// What an opened DATA artifact says of itself.
#[derive(Debug)]
pub struct OpenedData {
    pub kind: SegmentKind,
    pub column_count: usize,
    /// Row identities, group after group.
    pub row_ids: Vec<i64>,
}

/// What orders segments from the oldest to the newest.
#[derive(Debug, Clone, Copy, PartialEq, Eq, Structural)]
pub struct Recency {
    pub max_transaction_id: u64,
    pub min_transaction_id: u64,
    pub creation_generation: u64,
    pub id: u128,
}

impl SortKey for Recency {
    open spec fn leq(self, other: Self) -> bool {
        if self.max_transaction_id != other.max_transaction_id {
            self.max_transaction_id < other.max_transaction_id
        } else if self.min_transaction_id != other.min_transaction_id {
            self.min_transaction_id < other.min_transaction_id
        } else if self.creation_generation != other.creation_generation {
            self.creation_generation < other.creation_generation
        } else {
            self.id <= other.id
        }
    }

    proof fn lemma_total(a: Self, b: Self) {
    }

    proof fn lemma_transitive(a: Self, b: Self, c: Self) {
    }

    fn is_leq(&self, other: &Self) -> (r: bool) {
        if self.max_transaction_id != other.max_transaction_id {
            self.max_transaction_id < other.max_transaction_id
        } else if self.min_transaction_id != other.min_transaction_id {
            self.min_transaction_id < other.min_transaction_id
        } else if self.creation_generation != other.creation_generation {
            self.creation_generation < other.creation_generation
        } else {
            self.id <= other.id
        }
    }
}

pub open spec fn recency(segment: RecoveredSegment) -> Recency {
    Recency {
        max_transaction_id: segment.max_transaction_id,
        min_transaction_id: segment.min_transaction_id,
        creation_generation: segment.creation_generation,
        id: segment.id,
    }
}

pub open spec fn recencies(segments: Seq<RecoveredSegment>) -> Seq<Recency> {
    segments.map_values(|s: RecoveredSegment| recency(s))
}

/// Positions of the segments, oldest first.
pub fn recency_order(segments: &Vec<RecoveredSegment>) -> (order: Vec<usize>)
    ensures
        is_order(recencies(segments@), order@),
{
    let mut keys: Vec<Recency> = Vec::new();
    let mut i: usize = 0;
    while i < segments.len()
        invariant
            0 <= i <= segments@.len(),
            keys@ == recencies(segments@.take(i as int)),
        decreases segments@.len() - i,
    {
        let segment: RecoveredSegment = segments[i];
        keys.push(
            Recency {
                max_transaction_id: segment.max_transaction_id,
                min_transaction_id: segment.min_transaction_id,
                creation_generation: segment.creation_generation,
                id: segment.id,
            },
        );
        i = i + 1;
        assert(keys@ =~= recencies(segments@.take(i as int)));
    }
    assert(segments@.take(i as int) =~= segments@);
    order_of(keys)
}

/// Position of the table that a manifest belongs to.
pub open spec fn owner_position(table_ids: Seq<u128>, id: u128, i: int) -> Option<int>
    decreases table_ids.len() - i,
{
    if i < 0 || i >= table_ids.len() {
        None
    } else if table_ids[i] == id {
        Some(i)
    } else {
        owner_position(table_ids, id, i + 1)
    }
}

/// Finds the table that a manifest belongs to. A manifest without one is
/// history of a table that was dropped after the checkpoint.
pub fn find_owner(table_ids: &Vec<u128>, id: u128) -> (r: Option<usize>)
    ensures
        match r {
            Some(i) => owner_position(table_ids@, id, 0) == Some(i as int),
            None => owner_position(table_ids@, id, 0) is None,
        },
{
    let mut i: usize = 0;
    while i < table_ids.len()
        invariant
            0 <= i <= table_ids@.len(),
            owner_position(table_ids@, id, 0) == owner_position(table_ids@, id, i as int),
        decreases table_ids@.len() - i,
    {
        if table_ids[i] == id {
            return Some(i);
        }
        i = i + 1;
    }
    None
}

pub open spec fn table_message(table: Seq<char>, text: Seq<char>) -> ErrorView {
    ErrorView::Internal("table '"@ + table + "' "@ + text)
}

fn table_error(table: &str, text: &str) -> (e: Error)
    ensures
        e@ == table_message(table@, text@),
{
    Error::Internal {
        message: String::from_str("table '").concat(table).concat("' ").concat(text),
    }
}

/// The first identity that occurs a second time.
pub open spec fn first_duplicate(known: Set<i64>, rows: Seq<i64>, i: int) -> Option<i64>
    decreases rows.len() - i,
{
    if i < 0 || i >= rows.len() {
        None
    } else if known.contains(rows[i]) {
        Some(rows[i])
    } else {
        first_duplicate(known.insert(rows[i]), rows, i + 1)
    }
}

/// Tombstones with the rows from `i` on added at one sequence.
pub open spec fn with_deleted(map: Map<i64, u64>, rows: Seq<i64>, seq: u64, i: int) -> Map<i64, u64>
    decreases rows.len() - i,
{
    if i < 0 || i >= rows.len() {
        map
    } else {
        with_deleted(map.insert(rows[i], seq), rows, seq, i + 1)
    }
}

/// Why a segment is refused.
pub open spec fn segment_refusal(
    table: Seq<char>,
    segment: RecoveredSegment,
    opened: OpenedData,
    tombstones: Map<i64, u64>,
) -> Option<ErrorView> {
    if opened.kind != segment.kind {
        Some(table_message(table, "DATA kind differs from its segment descriptor"@))
    } else if segment.kind == SegmentKind::Rows {
        None
    } else if segment.has_index || opened.column_count != 0 {
        Some(table_message(table, "tombstone segment owns columns or an INDEX artifact"@))
    } else {
        match first_duplicate(tombstones.dom(), opened.row_ids@, 0) {
            Some(row_id) => Some(
                table_message(
                    table,
                    "has duplicate durable tombstone row ID "@ + signed_decimal_digits(
                        row_id as int,
                    ),
                ),
            ),
            None => None,
        }
    }
}

/// What a segment becomes.
#[derive(Debug, Clone, Copy, PartialEq, Eq, Structural)]
pub enum AdmittedSegment {
    /// A volume of the table.
    Volume { runtime_id: u64, level: SegmentLevel },
    /// Its rows joined the tombstones.
    Deleted,
}

pub open spec fn tier_level(tier: SegmentTier) -> SegmentLevel {
    match tier {
        SegmentTier::L0 => SegmentLevel::L0,
        SegmentTier::L1 => SegmentLevel::L1,
    }
}

/// One table being read back, segment by segment, oldest first.
#[derive(Debug)]
pub struct TableRecovery {
    table: String,
    next_sequence: u64,
    first_runtime_id: u64,
    offset: u64,
    tombstones: FxHashMap<i64, u64>,
}

impl TableRecovery {
    pub closed spec fn name(self) -> Seq<char> {
        self.table@
    }

    pub closed spec fn sequence(self) -> u64 {
        self.next_sequence
    }

    pub closed spec fn first(self) -> u64 {
        self.first_runtime_id
    }

    pub closed spec fn taken(self) -> u64 {
        self.offset
    }

    pub closed spec fn deleted(self) -> Map<i64, u64> {
        self.tombstones@
    }

    /// Starts on a manifest with `count` segments. Its next sequence must be
    /// above them all, and none of them may get identifier zero.
    pub fn new(table: &str, next_segment_sequence: u64, count: u64) -> (r: Result<Self, Error>)
        ensures
            refusal(r) == (if next_segment_sequence > count {
                None
            } else {
                Some(
                    table_message(table@, "next segment sequence cannot own its manifest"@),
                )
            }),
            r matches Ok(t) ==> t.name() == table@ && t.sequence() == next_segment_sequence
                && t.first() == next_segment_sequence - count && t.taken() == 0 && t.deleted()
                == Map::<i64, u64>::empty(),
    {
        if next_segment_sequence <= count {
            return Err(table_error(table, "next segment sequence cannot own its manifest"));
        }
        let tombstones: FxHashMap<i64, u64> = tombstone_map();
        assert(tombstones@ =~= Map::<i64, u64>::empty());
        Ok(
            TableRecovery {
                table: String::from_str(table),
                next_sequence: next_segment_sequence,
                first_runtime_id: next_segment_sequence - count,
                offset: 0,
                tombstones,
            },
        )
    }

    /// Takes the next segment in.
    pub fn take_segment(&mut self, segment: RecoveredSegment, opened: &OpenedData) -> (r: Result<
        AdmittedSegment,
        Error,
    >)
        ensures
            refusal(r) == (if old(self).first() + old(self).taken() > u64::MAX {
                Some(ErrorView::Internal("runtime segment sequence overflows"@))
            } else {
                segment_refusal(old(self).name(), segment, *opened, old(self).deleted())
            }),
            r matches Ok(admitted) ==> {
                &&& final(self).name() == old(self).name()
                &&& final(self).sequence() == old(self).sequence()
                &&& final(self).first() == old(self).first()
                &&& final(self).taken() == old(self).taken() + 1 || old(self).taken() == u64::MAX
                &&& match segment.kind {
                    SegmentKind::Rows => admitted == (AdmittedSegment::Volume {
                        runtime_id: (old(self).first() + old(self).taken()) as u64,
                        level: tier_level(segment.tier),
                    }) && final(self).deleted() == old(self).deleted(),
                    SegmentKind::Tombstones => admitted == AdmittedSegment::Deleted
                        && final(self).deleted() == with_deleted(
                        old(self).deleted(),
                        opened.row_ids@,
                        segment.max_transaction_id,
                        0,
                    ),
                }
            },
    {
        let runtime_id: u64 = match self.first_runtime_id.checked_add(self.offset) {
            Some(id) => id,
            None => {
                return Err(Error::internal("runtime segment sequence overflows"));
            },
        };
        if opened.kind != segment.kind {
            return Err(
                table_error(
                    self.table.as_str(),
                    "DATA kind differs from its segment descriptor",
                ),
            );
        }
        let offset: u64 = self.offset.saturating_add(1);
        if segment.kind == SegmentKind::Rows {
            self.offset = offset;
            let level: SegmentLevel = match segment.tier {
                SegmentTier::L0 => SegmentLevel::L0,
                SegmentTier::L1 => SegmentLevel::L1,
            };
            return Ok(AdmittedSegment::Volume { runtime_id, level });
        }
        if segment.has_index || opened.column_count != 0 {
            return Err(
                table_error(
                    self.table.as_str(),
                    "tombstone segment owns columns or an INDEX artifact",
                ),
            );
        }
        let mut i: usize = 0;
        while i < opened.row_ids.len()
            invariant
                0 <= i <= opened.row_ids@.len(),
                self.table@ == old(self).table@,
                self.next_sequence == old(self).next_sequence,
                self.first_runtime_id == old(self).first_runtime_id,
                self.offset == old(self).offset,
                segment.kind == SegmentKind::Tombstones,
                opened.kind == segment.kind,
                !segment.has_index,
                opened.column_count == 0,
                old(self).first() + old(self).taken() <= u64::MAX,
                first_duplicate(old(self).tombstones@.dom(), opened.row_ids@, 0)
                    == first_duplicate(self.tombstones@.dom(), opened.row_ids@, i as int),
                with_deleted(
                    old(self).tombstones@,
                    opened.row_ids@,
                    segment.max_transaction_id,
                    0,
                ) == with_deleted(
                    self.tombstones@,
                    opened.row_ids@,
                    segment.max_transaction_id,
                    i as int,
                ),
            decreases opened.row_ids@.len() - i,
        {
            let row_id: i64 = opened.row_ids[i];
            if tombstone_get(&self.tombstones, row_id).is_some() {
                return Err(
                    table_error(
                        self.table.as_str(),
                        String::from_str("has duplicate durable tombstone row ID ").concat(
                            signed_decimal(row_id).as_str(),
                        ).as_str(),
                    ),
                );
            }
            let ghost before = self.tombstones@;
            tombstone_insert(&mut self.tombstones, row_id, segment.max_transaction_id);
            assert(self.tombstones@.dom() =~= before.dom().insert(row_id));
            i = i + 1;
        }
        self.offset = offset;
        Ok(AdmittedSegment::Deleted)
    }

    /// The tombstones and the sequence that the table goes on with.
    pub fn finish(self) -> (r: (FxHashMap<i64, u64>, u64))
        ensures
            r.0@ == self.deleted(),
            r.1 == self.sequence(),
    {
        (self.tombstones, self.next_sequence)
    }
}

/// A table of the runtime, with its catalog identity or the text of the
/// fault in it.
#[derive(Debug)]
pub struct RuntimeTable {
    /// Name as it was written.
    pub name: String,
    pub name_lower: String,
    pub catalog_id: Result<u128, String>,
}

pub open spec fn runtime_refusal(table: RuntimeTable) -> Option<ErrorView> {
    match table.catalog_id {
        Ok(_) => None,
        Err(text) => Some(
            ErrorView::Internal(
                "runtime schema '"@ + table.name@ + "' has invalid catalog identity: "@ + text@,
            ),
        ),
    }
}

pub open spec fn runtime_check(tables: Seq<RuntimeTable>) -> spec_fn(int) -> Option<ErrorView> {
    |i: int| runtime_refusal(tables[i])
}

/// Identities of the tables that segments are read back into.
pub fn runtime_table_ids(tables: &Vec<RuntimeTable>) -> (r: Result<Vec<u128>, Error>)
    ensures
        refusal(r) == first_refusal(0, tables@.len() as int, runtime_check(tables@)),
        r matches Ok(ids) ==> ids@ == tables@.map_values(|t: RuntimeTable| t.catalog_id->Ok_0),
{
    let ghost check = runtime_check(tables@);
    let ghost n = tables@.len() as int;
    let mut ids: Vec<u128> = Vec::new();
    let mut i: usize = 0;
    while i < tables.len()
        invariant
            0 <= i <= tables@.len(),
            n == tables@.len(),
            check == runtime_check(tables@),
            first_refusal(0, n, check) == first_refusal(i as int, n, check),
            ids@ == tables@.take(i as int).map_values(|t: RuntimeTable| t.catalog_id->Ok_0),
        decreases tables@.len() - i,
    {
        let ghost found = check(i as int);
        match &tables[i].catalog_id {
            Ok(id) => {
                assert(found is None);
                ids.push(*id);
            },
            Err(text) => {
                assert(found is Some);
                return Err(
                    Error::Internal {
                        message: String::from_str("runtime schema '").concat(
                            tables[i].name.as_str(),
                        ).concat("' has invalid catalog identity: ").concat(text.as_str()),
                    },
                );
            },
        }
        i = i + 1;
        assert(ids@ =~= tables@.take(i as int).map_values(
            |t: RuntimeTable| t.catalog_id->Ok_0,
        ));
    }
    assert(tables@.take(i as int) =~= tables@);
    Ok(ids)
}

/// A table whose segments have to be read back.
#[derive(Debug)]
pub struct StartedRecovery {
    /// Position of the table.
    pub table: usize,
    /// Positions of the segments in the order in which they are taken in.
    pub order: Vec<usize>,
    pub recovery: TableRecovery,
}

/// Starts on one table's manifest. A manifest without a table, or without
/// segments, needs no work.
pub fn install_recovered_artifacts(
    tables: &Vec<RuntimeTable>,
    ids: &Vec<u128>,
    manifest_table: u128,
    next_segment_sequence: u64,
    segments: &Vec<RecoveredSegment>,
) -> (r: Result<Option<StartedRecovery>, Error>)
    requires
        ids@.len() == tables@.len(),
    ensures
        match owner_position(ids@, manifest_table, 0) {
            None => r matches Ok(None),
            Some(p) => if segments@.len() == 0 {
                r matches Ok(None)
            } else if next_segment_sequence <= segments@.len() {
                refusal(r) == Some(
                    table_message(
                        tables@[p].name_lower@,
                        "next segment sequence cannot own its manifest"@,
                    ),
                )
            } else {
                r matches Ok(Some(started)) && {
                    &&& started.table == p
                    &&& is_order(recencies(segments@), started.order@)
                    &&& started.recovery.name() == tables@[p].name_lower@
                    &&& started.recovery.sequence() == next_segment_sequence
                    &&& started.recovery.first() == next_segment_sequence - segments@.len()
                    &&& started.recovery.taken() == 0
                    &&& started.recovery.deleted() == Map::<i64, u64>::empty()
                }
            },
        },
{
    proof {
        lemma_owner_position(ids@, manifest_table, 0);
    }
    let table: usize = match find_owner(ids, manifest_table) {
        Some(p) => p,
        None => {
            return Ok(None);
        },
    };
    if segments.len() == 0 {
        return Ok(None);
    }
    match TableRecovery::new(
        tables[table].name_lower.as_str(),
        next_segment_sequence,
        segments.len() as u64,
    ) {
        Err(e) => Err(e),
        Ok(recovery) => Ok(
            Some(StartedRecovery { table, order: recency_order(segments), recovery }),
        ),
    }
}

proof fn lemma_owner_position(table_ids: Seq<u128>, id: u128, i: int)
    requires
        0 <= i,
    ensures
        owner_position(table_ids, id, i) matches Some(p) ==> i <= p < table_ids.len()
            && table_ids[p] == id,
    decreases table_ids.len() - i,
{
    if i < table_ids.len() {
        lemma_owner_position(table_ids, id, i + 1);
    }
}

/// Manifest entry of a published volume.
#[derive(Debug)]
pub struct SegmentMeta {
    pub segment_id: u64,
    pub file_path: String,
    pub row_count: usize,
    pub min_row_id: i64,
    pub max_row_id: i64,
    pub seal_seq: u64,
    pub schema_version: u64,
    pub level: SegmentLevel,
    pub creation_epoch: u64,
}

/// Describes a fresh volume. One with a DATA artifact is found under the
/// artifact's path, any other under its conventional one.
pub fn segment_registration(
    table_name: &str,
    row_ids: &Vec<i64>,
    artifact_path: Option<String>,
    seg_id: u64,
    seal_seq: u64,
    schema_version: u64,
) -> (meta: SegmentMeta)
    ensures
        meta.segment_id == seg_id,
        meta.file_path@ == match artifact_path {
            Some(path) => path@,
            None => crate::text::conventional_segment_path(table_name@, seg_id),
        },
        meta.row_count == row_ids@.len(),
        meta.min_row_id == (if row_ids@.len() == 0 {
            0
        } else {
            row_ids@[0]
        }),
        meta.max_row_id == (if row_ids@.len() == 0 {
            0
        } else {
            row_ids@[row_ids@.len() - 1]
        }),
        meta.seal_seq == seal_seq,
        meta.schema_version == schema_version,
        meta.level == SegmentLevel::L0,
        meta.creation_epoch == seal_seq,
{
    let count: usize = row_ids.len();
    let file_path: String = match artifact_path {
        Some(path) => path,
        None => crate::text::conventional_segment_file_path(table_name, seg_id),
    };
    SegmentMeta {
        segment_id: seg_id,
        file_path,
        row_count: count,
        min_row_id: if count == 0 {
            0
        } else {
            row_ids[0]
        },
        max_row_id: if count == 0 {
            0
        } else {
            row_ids[count - 1]
        },
        seal_seq,
        schema_version,
        level: SegmentLevel::L0,
        creation_epoch: seal_seq,
    }
}

/// Largest transaction identifier of one kind of segment.
pub open spec fn high_water(segments: Seq<RecoveredSegment>, kind: SegmentKind, n: int) -> int
    decreases n,
{
    if n <= 0 {
        0
    } else if segments[n - 1].kind == kind {
        spec_max(
            high_water(segments, kind, n - 1),
            segments[n - 1].max_transaction_id as int,
        )
    } else {
        high_water(segments, kind, n - 1)
    }
}

/// Frontiers that the transaction registry resumes from.
#[derive(Debug, Clone, Copy, PartialEq, Eq, Structural)]
pub struct HighWaters {
    pub transaction: i64,
    pub visibility: i64,
}

pub open spec fn transaction_frontier(recorded: u64, segments: Seq<RecoveredSegment>) -> int {
    spec_max(recorded as int, high_water(segments, SegmentKind::Rows, segments.len() as int))
}

pub open spec fn visibility_frontier(recorded: u64, segments: Seq<RecoveredSegment>) -> int {
    spec_max(
        high_water(segments, SegmentKind::Tombstones, segments.len() as int),
        transaction_frontier(recorded, segments),
    )
}

/// Frontiers that the retained log may no longer show. Row segments carry
/// transaction identifiers, tombstone segments commit sequences; the sequence
/// goes at least as far as the identifiers.
pub fn recover_physical_mvcc_high_waters(
    recorded: u64,
    segments: &Vec<RecoveredSegment>,
) -> (r: Result<HighWaters, Error>)
    ensures
        refusal(r) == (if transaction_frontier(recorded, segments@) > i64::MAX {
            Some(
                ErrorView::Internal(
                    "physical transaction high-water exceeds the positive MVCC domain"@,
                ),
            )
        } else if visibility_frontier(recorded, segments@) > i64::MAX {
            Some(
                ErrorView::Internal(
                    "physical visibility high-water exceeds the packed MVCC domain"@,
                ),
            )
        } else {
            None
        }),
        r matches Ok(h) ==> h.transaction == transaction_frontier(recorded, segments@)
            && h.visibility == visibility_frontier(recorded, segments@),
{
    let mut transaction: u64 = recorded;
    let mut visibility: u64 = 0;
    let mut i: usize = 0;
    while i < segments.len()
        invariant
            0 <= i <= segments@.len(),
            transaction == spec_max(
                recorded as int,
                high_water(segments@, SegmentKind::Rows, i as int),
            ),
            visibility == high_water(segments@, SegmentKind::Tombstones, i as int),
        decreases segments@.len() - i,
    {
        let mark: u64 = segments[i].max_transaction_id;
        match segments[i].kind {
            SegmentKind::Rows => {
                if mark > transaction {
                    transaction = mark;
                }
            },
            SegmentKind::Tombstones => {
                if mark > visibility {
                    visibility = mark;
                }
            },
        }
        i = i + 1;
    }
    if transaction > visibility {
        visibility = transaction;
    }
    if transaction > 0x7fff_ffff_ffff_ffff {
        return Err(
            Error::internal("physical transaction high-water exceeds the positive MVCC domain"),
        );
    }
    if visibility > 0x7fff_ffff_ffff_ffff {
        return Err(
            Error::internal("physical visibility high-water exceeds the packed MVCC domain"),
        );
    }
    Ok(HighWaters { transaction: transaction as i64, visibility: visibility as i64 })
}

/// A column of a DATA artifact, as its layout describes it.
#[derive(Debug)]
pub struct PhysicalColumn {
    pub column_id: u128,
    /// The identity as it is printed.
    pub id_text: String,
    pub data_type: DataType,
    pub nullable: bool,
    pub type_object: TypeObject,
}

/// A column of the schema that an artifact was written under.
#[derive(Debug)]
pub struct ArtifactColumn {
    pub ordinal: usize,
    pub name: String,
    pub data_type: DataType,
    pub nullable: bool,
    pub external: Option<String>,
}

pub struct ArtifactColumnView {
    pub ordinal: int,
    pub name: Seq<char>,
    pub data_type: DataType,
    pub nullable: bool,
    pub external: Option<Seq<char>>,
}

impl View for ArtifactColumn {
    type V = ArtifactColumnView;

    open spec fn view(&self) -> ArtifactColumnView {
        ArtifactColumnView {
            ordinal: self.ordinal as int,
            name: self.name@,
            data_type: self.data_type,
            nullable: self.nullable,
            external: match self.external {
                Some(t) => Some(t@),
                None => None,
            },
        }
    }
}

pub open spec fn identity_message(id: Seq<char>, text: Seq<char>) -> ErrorView {
    ErrorView::Internal("DATA artifact column identity "@ + id + text)
}

/// The current name of a physical column, or the name of a dropped column,
/// which no live column can have.
pub open spec fn column_name(
    objects: Seq<CatalogObject>,
    table_id: u128,
    column: PhysicalColumn,
) -> Result<Seq<char>, ErrorView> {
    let id = column.id_text@;
    match object_of(objects, column.column_id, 0) {
        None => Ok("__dropped_"@ + id),
        Some(o) => match o.payload {
            CatalogPayload::Column { data_type, type_object, .. } => if o.parent_id != Some(
                table_id,
            ) {
                Err(identity_message(id, " belongs to another table"@))
            } else if data_type != column.data_type || type_object != column.type_object {
                Err(identity_message(id, " has a type incompatible with the selected catalog"@))
            } else {
                Ok(o.name@)
            },
            _ => Err(identity_message(id, " resolves to a non-column catalog object"@)),
        },
    }
}

/// The name of the type of a column whose type is not built in.
pub open spec fn external_name(objects: Seq<CatalogObject>, type_object: TypeObject) -> Result<
    Option<Seq<char>>,
    ErrorView,
> {
    match type_object {
        TypeObject::BuiltIn => Ok(None),
        TypeObject::External(None) => Err(
            ErrorView::Internal("external DATA type lost its object ID"@),
        ),
        TypeObject::External(Some(id)) => match object_of(objects, id, 0) {
            None => Err(ErrorView::Internal("external DATA type object disappeared"@)),
            Some(o) => Ok(Some(o.name@)),
        },
    }
}

/// A physical column as the selected catalog knows it.
pub open spec fn artifact_column(
    objects: Seq<CatalogObject>,
    table_id: u128,
    column: PhysicalColumn,
    ordinal: int,
) -> Result<ArtifactColumnView, ErrorView> {
    match column_name(objects, table_id, column) {
        Err(e) => Err(e),
        Ok(name) => match external_name(objects, column.type_object) {
            Err(e) => Err(e),
            Ok(external) => Ok(
                ArtifactColumnView {
                    ordinal,
                    name,
                    data_type: column.data_type,
                    nullable: column.nullable,
                    external,
                },
            ),
        },
    }
}

fn resolve_name(objects: &Vec<CatalogObject>, table_id: u128, column: &PhysicalColumn) -> (r: Result<
    String,
    Error,
>)
    ensures
        outcome(r) == column_name(objects@, table_id, *column),
{
    let id: &str = column.id_text.as_str();
    let prefix = String::from_str("DATA artifact column identity ");
    let object: &CatalogObject = match find_object(objects, column.column_id) {
        Some(o) => o,
        None => {
            return Ok(String::from_str("__dropped_").concat(id));
        },
    };
    match &object.payload {
        CatalogPayload::Column { data_type, type_object, .. } => {
            let owned: bool = match object.parent_id {
                Some(parent) => parent == table_id,
                None => false,
            };
            if !owned {
                Err(
                    Error::Internal {
                        message: prefix.concat(id).concat(" belongs to another table"),
                    },
                )
            } else if *data_type != column.data_type || *type_object != column.type_object {
                Err(
                    Error::Internal {
                        message: prefix.concat(id).concat(
                            " has a type incompatible with the selected catalog",
                        ),
                    },
                )
            } else {
                Ok(object.name.clone())
            }
        },
        _ => Err(
            Error::Internal {
                message: prefix.concat(id).concat(" resolves to a non-column catalog object"),
            },
        ),
    }
}

fn resolve_column(
    objects: &Vec<CatalogObject>,
    table_id: u128,
    column: &PhysicalColumn,
    ordinal: usize,
) -> (r: Result<ArtifactColumn, Error>)
    ensures
        outcome(r) == artifact_column(objects@, table_id, *column, ordinal as int),
{
    let name: String = match resolve_name(objects, table_id, column) {
        Ok(name) => name,
        Err(e) => {
            return Err(e);
        },
    };
    let external: Option<String> = match column.type_object {
        TypeObject::BuiltIn => None,
        TypeObject::External(None) => {
            return Err(Error::internal("external DATA type lost its object ID"));
        },
        TypeObject::External(Some(id)) => match find_object(objects, id) {
            None => {
                return Err(Error::internal("external DATA type object disappeared"));
            },
            Some(object) => Some(object.name.clone()),
        },
    };
    Ok(
        ArtifactColumn {
            ordinal,
            name,
            data_type: column.data_type,
            nullable: column.nullable,
            external,
        },
    )
}

/// The columns of an artifact from `i` on, up to the first that is refused.
pub open spec fn artifact_columns(
    objects: Seq<CatalogObject>,
    table_id: u128,
    columns: Seq<PhysicalColumn>,
    i: int,
) -> Result<Seq<ArtifactColumnView>, ErrorView>
    decreases columns.len() - i,
{
    if i < 0 || i >= columns.len() {
        Ok(Seq::empty())
    } else {
        match artifact_column(objects, table_id, columns[i], i) {
            Err(e) => Err(e),
            Ok(first) => match artifact_columns(objects, table_id, columns, i + 1) {
                Err(e) => Err(e),
                Ok(rest) => Ok(seq![first] + rest),
            },
        }
    }
}

/// The columns under which an artifact was written. Definition changes touch
/// metadata only: an older segment may lack columns, keep dropped ones, or
/// predate a rename.
pub fn artifact_physical_schema(
    objects: &Vec<CatalogObject>,
    table_id: u128,
    columns: &Vec<PhysicalColumn>,
) -> (r: Result<Vec<ArtifactColumn>, Error>)
    ensures
        match r {
            Ok(out) => artifact_columns(objects@, table_id, columns@, 0) == Ok::<Seq<ArtifactColumnView>, ErrorView>(
                out@.map_values(|c: ArtifactColumn| c@),
            ),
            Err(e) => artifact_columns(objects@, table_id, columns@, 0) == Err::<Seq<ArtifactColumnView>, ErrorView>(
                e@,
            ),
        },
{
    let mut out: Vec<ArtifactColumn> = Vec::new();
    let mut i: usize = 0;
    while i < columns.len()
        invariant
            0 <= i <= columns@.len(),
            artifact_columns(objects@, table_id, columns@, 0) == match artifact_columns(objects@, table_id, columns@, i as int) {
                Err(e) => Err::<Seq<ArtifactColumnView>, ErrorView>(e),
                Ok(rest) => Ok(out@.map_values(|c: ArtifactColumn| c@) + rest),
            },
        decreases columns@.len() - i,
    {
        let ghost done = out@.map_values(|c: ArtifactColumn| c@);
        match resolve_column(objects, table_id, &columns[i], i) {
            Err(e) => {
                return Err(e);
            },
            Ok(column) => {
                out.push(column);
                proof {
                    let now = out@.map_values(|c: ArtifactColumn| c@);
                    assert(now =~= done.push(column@));
                    if let Ok(rest) = artifact_columns(objects@, table_id, columns@, i + 1) {
                        assert(done + (seq![column@] + rest) =~= now + rest);
                    }
                }
            },
        }
        i = i + 1;
    }
    assert(out@.map_values(|c: ArtifactColumn| c@) + Seq::<ArtifactColumnView>::empty()
        =~= out@.map_values(|c: ArtifactColumn| c@));
    Ok(out)
}

/// Largest last row identity of the volumes, at least zero.
pub open spec fn last_row_mark(last_ids: Seq<Option<i64>>, n: int) -> int
    decreases n,
{
    if n <= 0 {
        0
    } else {
        match last_ids[n - 1] {
            Some(id) => spec_max(last_row_mark(last_ids, n - 1), id as int),
            None => last_row_mark(last_ids, n - 1),
        }
    }
}

/// Where a table's counter has to go on, given the last row of each volume.
pub fn sync_auto_increment_from_segments(last_ids: &Vec<Option<i64>>) -> (r: Option<i64>)
    ensures
        r == (if last_row_mark(last_ids@, last_ids@.len() as int) > 0 {
            Some(last_row_mark(last_ids@, last_ids@.len() as int) as i64)
        } else {
            None
        }),
{
    let mut mark: i64 = 0;
    let mut i: usize = 0;
    while i < last_ids.len()
        invariant
            0 <= i <= last_ids@.len(),
            mark == last_row_mark(last_ids@, i as int),
        decreases last_ids@.len() - i,
    {
        if let Some(id) = last_ids[i] {
            if id > mark {
                mark = id;
            }
        }
        i = i + 1;
    }
    if mark > 0 {
        Some(mark)
    } else {
        None
    }
}

/// A table that took in all its segments gave each an identifier of its own,
/// above zero and below the sequence the table goes on with; a newer segment
/// has the higher one.
pub proof fn law_runtime_ids_follow_recency(
    next_sequence: u64,
    segments: Seq<RecoveredSegment>,
    order: Seq<usize>,
    a: int,
    b: int,
)
    requires
        is_order(recencies(segments), order),
        next_sequence > segments.len(),
        0 <= a < b < order.len(),
    ensures
        ({
            let first = next_sequence - segments.len();
            &&& 0 < first + a < first + b < next_sequence
            &&& recency(segments[order[a] as int]).leq(recency(segments[order[b] as int]))
        }),
{
    assert(recencies(segments)[order[a] as int].leq(recencies(segments)[order[b] as int]));
}

/// No segment that the generation names is above the recovered frontiers:
/// neither an identifier nor a commit sequence is handed out twice.
pub proof fn law_frontiers_cover_every_segment(
    recorded: u64,
    segments: Seq<RecoveredSegment>,
    i: int,
)
    requires
        0 <= i < segments.len(),
    ensures
        segments[i].kind == SegmentKind::Rows ==> segments[i].max_transaction_id
            <= transaction_frontier(recorded, segments),
        segments[i].max_transaction_id <= visibility_frontier(recorded, segments),
        recorded <= transaction_frontier(recorded, segments) <= visibility_frontier(
            recorded,
            segments,
        ),
{
    lemma_high_water(segments, segments[i].kind, i, segments.len() as int);
}

proof fn lemma_high_water(segments: Seq<RecoveredSegment>, kind: SegmentKind, i: int, n: int)
    requires
        0 <= i < n <= segments.len(),
        segments[i].kind == kind,
    ensures
        segments[i].max_transaction_id <= high_water(segments, kind, n),
    decreases n,
{
    if i < n - 1 {
        lemma_high_water(segments, kind, i, n - 1);
    }
}

} // verus!
