//! Table manifests of the next generation.
use super::control::format_error;
use super::control::publication_message;
use super::data::group_count;
use super::segments::change_of;
use super::segments::change_views;
use super::segments::ArtifactRef;
use super::segments::ChangeView;
use super::segments::SegmentDescriptor;
use super::segments::TableSegmentChange;
use crate::error::first_refusal;
use crate::error::refusal;
use crate::error::Error;
use crate::error::ErrorView;
use crate::num::spec_max;
use crate::num::spec_min;
use crate::recovery::artifacts::SegmentKind;
use crate::recovery::artifacts::SegmentTier;
use crate::schema::lemma_filter_push;
use crate::sort::is_order;
use crate::sort::is_permutation;
use crate::sort::is_sorted;
use crate::sort::order_of;
use crate::sort::sorted;
use crate::text::same_text;
use vstd::prelude::*;
use vstd::string::StringExecFns;

verus! {

/// The manifest of a table in the selected generation.
#[derive(Debug)]
pub struct TableSource {
    pub row_id_high_water: u64,
    pub next_segment_sequence: u64,
    pub segments: Vec<SegmentDescriptor>,
    /// Identity under which the generation refers to the manifest.
    pub reference: Option<u128>,
}

pub struct SourceView {
    pub row_id_high_water: u64,
    pub next_segment_sequence: u64,
    pub segments: Seq<SegmentDescriptor>,
    pub reference: Option<u128>,
}

impl View for TableSource {
    type V = SourceView;

    open spec fn view(&self) -> SourceView {
        SourceView {
            row_id_high_water: self.row_id_high_water,
            next_segment_sequence: self.next_segment_sequence,
            segments: self.segments@,
            reference: self.reference,
        }
    }
}

/// A table of the catalog that the next generation has to hold.
#[derive(Debug)]
pub struct CatalogTableState {
    pub table_id: u128,
    pub source: Option<TableSource>,
    /// Counter of the live store, where there is one.
    pub auto_increment: Option<i64>,
}

pub open spec fn source_view(table: CatalogTableState) -> Option<SourceView> {
    match table.source {
        Some(s) => Some(s@),
        None => None,
    }
}

/// What happens to a table's manifest.
#[derive(Debug)]
pub enum ManifestPlan {
    /// The generation refers to the manifest it has.
    Reuse { reference: u128 },
    Write {
        segments: Vec<SegmentDescriptor>,
        row_id_high_water: u64,
        next_segment_sequence: u64,
    },
}

pub enum PlanView {
    Reuse { reference: u128 },
    Write { segments: Seq<SegmentDescriptor>, row_id_high_water: int, next_segment_sequence: int },
}

impl View for ManifestPlan {
    type V = PlanView;

    open spec fn view(&self) -> PlanView {
        match self {
            ManifestPlan::Reuse { reference } => PlanView::Reuse { reference: *reference },
            ManifestPlan::Write { segments, row_id_high_water, next_segment_sequence } =>
                PlanView::Write {
                segments: segments@,
                row_id_high_water: *row_id_high_water as int,
                next_segment_sequence: *next_segment_sequence as int,
            },
        }
    }
}

pub open spec fn keeps_segment(removals: Seq<u128>) -> spec_fn(SegmentDescriptor) -> bool {
    |s: SegmentDescriptor| !removals.contains(s.id)
}

/// Segments of a table after a change.
pub open spec fn changed_segments(
    segments: Seq<SegmentDescriptor>,
    change: Option<ChangeView>,
) -> Seq<SegmentDescriptor> {
    match change {
        None => segments,
        Some(c) => segments.filter(keeps_segment(c.removals)) + c.additions,
    }
}

/// Largest row identity that row segments bring in.
pub open spec fn added_row_mark(additions: Seq<SegmentDescriptor>, n: int) -> int
    decreases n,
{
    if n <= 0 {
        0
    } else if additions[n - 1].kind == SegmentKind::Rows {
        spec_max(added_row_mark(additions, n - 1), additions[n - 1].last_row_id as int)
    } else {
        added_row_mark(additions, n - 1)
    }
}

/// Segments that are new rather than rewritten under their identity.
pub open spec fn new_segments(change: ChangeView, n: int) -> int
    decreases n,
{
    if n <= 0 {
        0
    } else if change.removals.contains(change.additions[n - 1].id) {
        new_segments(change, n - 1)
    } else {
        new_segments(change, n - 1) + 1
    }
}

pub open spec fn next_sequence(source: Option<SourceView>, change: Option<ChangeView>) -> int {
    (match source {
        Some(s) => s.next_segment_sequence as int,
        None => 1,
    }) + (match change {
        Some(c) => new_segments(c, c.additions.len() as int),
        None => 0,
    })
}

pub open spec fn row_mark(
    source: Option<SourceView>,
    auto_increment: Option<i64>,
    change: Option<ChangeView>,
) -> int {
    spec_max(
        spec_max(
            match source {
                Some(s) => s.row_id_high_water as int,
                None => 0,
            },
            match auto_increment {
                Some(n) => spec_max(n as int, 0),
                None => 0,
            },
        ),
        match change {
            Some(c) => added_row_mark(c.additions, c.additions.len() as int),
            None => 0,
        },
    )
}

/// The manifest of a table in the next generation.
pub open spec fn planned_manifest(
    source: Option<SourceView>,
    auto_increment: Option<i64>,
    change: Option<ChangeView>,
) -> Result<PlanView, ErrorView> {
    match (source, change) {
        (Some(s), None) => match s.reference {
            Some(reference) => Ok(PlanView::Reuse { reference }),
            None => Err(ErrorView::Internal("unchanged table reference is absent"@)),
        },
        _ => if next_sequence(source, change) > u64::MAX {
            Err(ErrorView::Internal("table segment sequence overflows"@))
        } else {
            Ok(
                PlanView::Write {
                    segments: changed_segments(
                        match source {
                            Some(s) => s.segments,
                            None => Seq::empty(),
                        },
                        change,
                    ),
                    row_id_high_water: row_mark(source, auto_increment, change),
                    next_segment_sequence: next_sequence(source, change),
                },
            )
        },
    }
}

pub open spec fn table_change(changes: Seq<ChangeView>, table_id: u128) -> Option<ChangeView> {
    match change_of(changes, table_id, 0) {
        Some(p) => Some(changes[p]),
        None => None,
    }
}

fn position_of_change(changes: &Vec<TableSegmentChange>, table_id: u128) -> (r: Option<usize>)
    ensures
        match r {
            Some(p) => p < changes@.len() && table_change(change_views(changes@), table_id)
                == Some(changes@[p as int]@),
            None => table_change(change_views(changes@), table_id) is None,
        },
{
    let ghost views = change_views(changes@);
    let mut i: usize = 0;
    while i < changes.len()
        invariant
            0 <= i <= changes@.len(),
            views == change_views(changes@),
            change_of(views, table_id, 0) == change_of(views, table_id, i as int),
        decreases changes@.len() - i,
    {
        assert(views[i as int] == changes@[i as int]@);
        if changes[i].table_id == table_id {
            return Some(i);
        }
        i = i + 1;
    }
    None
}

fn has_id(ids: &Vec<u128>, id: u128) -> (r: bool)
    ensures
        r == ids@.contains(id),
{
    let mut i: usize = 0;
    while i < ids.len()
        invariant
            0 <= i <= ids@.len(),
            forall|k: int| 0 <= k < i ==> #[trigger] ids@[k] != id,
        decreases ids@.len() - i,
    {
        if ids[i] == id {
            return true;
        }
        i = i + 1;
    }
    false
}

/// Segments without the removed ones.
fn kept_segments(segments: &Vec<SegmentDescriptor>, removals: &Vec<u128>) -> (r: Vec<
    SegmentDescriptor,
>)
    ensures
        r@ == segments@.filter(keeps_segment(removals@)),
{
    let ghost keep = keeps_segment(removals@);
    let mut out: Vec<SegmentDescriptor> = Vec::new();
    let mut i: usize = 0;
    assert(segments@.take(0).filter(keep) =~= Seq::<SegmentDescriptor>::empty()) by {
        reveal(Seq::filter);
    }
    while i < segments.len()
        invariant
            0 <= i <= segments@.len(),
            keep == keeps_segment(removals@),
            out@ == segments@.take(i as int).filter(keep),
        decreases segments@.len() - i,
    {
        proof {
            lemma_filter_push(segments@, i as int, keep);
        }
        if !has_id(removals, segments[i].id) {
            out.push(segments[i]);
        }
        i = i + 1;
    }
    assert(segments@.take(i as int) =~= segments@);
    out
}

proof fn lemma_new_segments(change: ChangeView, n: int)
    requires
        0 <= n,
    ensures
        0 <= new_segments(change, n) <= n,
    decreases n,
{
    if n > 0 {
        lemma_new_segments(change, n - 1);
    }
}

/// Decides on the manifest of one table: one that no change touches is
/// referred to as it is.
pub fn plan_table_manifest(table: &CatalogTableState, changes: &Vec<TableSegmentChange>) -> (
    r: Result<ManifestPlan, Error>)
    ensures
        match r {
            Ok(plan) => planned_manifest(
                source_view(*table),
                table.auto_increment,
                table_change(change_views(changes@), table.table_id),
            ) == Ok::<PlanView, ErrorView>(plan@),
            Err(e) => planned_manifest(
                source_view(*table),
                table.auto_increment,
                table_change(change_views(changes@), table.table_id),
            ) == Err::<PlanView, ErrorView>(e@),
        },
{
    let at: Option<usize> = position_of_change(changes, table.table_id);
    if at.is_none() {
        if let Some(source) = &table.source {
            match source.reference {
                Some(reference) => {
                    return Ok(ManifestPlan::Reuse { reference });
                },
                None => {
                    return Err(Error::internal("unchanged table reference is absent"));
                },
            }
        }
    }
    let mut row_id_high_water: u64 = match &table.source {
        Some(s) => s.row_id_high_water,
        None => 0,
    };
    if let Some(counter) = table.auto_increment {
        if counter > 0 && counter as u64 > row_id_high_water {
            row_id_high_water = counter as u64;
        }
    }
    let sequence: u64 = match &table.source {
        Some(s) => s.next_segment_sequence,
        None => 1,
    };
    let mut segments: Vec<SegmentDescriptor> = Vec::new();
    let mut added: u64 = 0;
    match at {
        None => {
            assert(segments@ =~= changed_segments(Seq::empty(), None));
        },
        Some(p) => {
            let change: &TableSegmentChange = &changes[p];
            let ghost base_mark = row_id_high_water as int;
            match &table.source {
                Some(s) => {
                    segments = kept_segments(&s.segments, &change.removals);
                },
                None => {
                    assert(Seq::<SegmentDescriptor>::empty().filter(
                        keeps_segment(change.removals@),
                    ) =~= Seq::<SegmentDescriptor>::empty()) by {
                        reveal(Seq::filter);
                    }
                },
            }
            let ghost kept = segments@;
            let mut i: usize = 0;
            while i < change.additions.len()
                invariant
                    0 <= i <= change.additions@.len(),
                    segments@ == kept + change.additions@.take(i as int),
                    row_id_high_water == spec_max(
                        base_mark,
                        added_row_mark(change.additions@, i as int),
                    ),
                    added == new_segments(change@, i as int),
                    added <= i,
                decreases change.additions@.len() - i,
            {
                let segment: SegmentDescriptor = change.additions[i];
                if segment.kind == SegmentKind::Rows && segment.last_row_id > row_id_high_water {
                    row_id_high_water = segment.last_row_id;
                }
                if !has_id(&change.removals, segment.id) {
                    added = added + 1;
                }
                segments.push(segment);
                i = i + 1;
                assert(segments@ =~= kept + change.additions@.take(i as int));
            }
            assert(change.additions@.take(i as int) =~= change.additions@);
        },
    }
    match sequence.checked_add(added) {
        None => Err(Error::internal("table segment sequence overflows")),
        Some(next_segment_sequence) => Ok(
            ManifestPlan::Write { segments, row_id_high_water, next_segment_sequence },
        ),
    }
}

pub open spec fn state_ids(tables: Seq<CatalogTableState>) -> Seq<u128> {
    tables.map_values(|t: CatalogTableState| t.table_id)
}

pub open spec fn planned_table(table: CatalogTableState, changes: Seq<ChangeView>) -> Result<
    PlanView,
    ErrorView,
> {
    planned_manifest(
        source_view(table),
        table.auto_increment,
        table_change(changes, table.table_id),
    )
}

pub open spec fn plan_refusal(planned: Result<PlanView, ErrorView>) -> Option<ErrorView> {
    match planned {
        Ok(_) => None,
        Err(e) => Some(e),
    }
}

/// The manifests of all tables, in the order of their identities.
pub open spec fn is_manifest_plan(
    tables: Seq<CatalogTableState>,
    changes: Seq<ChangeView>,
    order: Seq<usize>,
    plans: Seq<(u128, ManifestPlan)>,
) -> bool {
    &&& is_order(state_ids(tables), order)
    &&& plans.len() == tables.len()
    &&& forall|a: int|
        0 <= a < plans.len() ==> (#[trigger] plans[a]).0 == tables[order[a] as int].table_id
            && planned_table(tables[order[a] as int], changes) == Ok::<PlanView, ErrorView>(
            plans[a].1@,
        )
}

/// Whether a refusal is the first that some order of the tables meets.
pub open spec fn is_manifest_refusal(
    tables: Seq<CatalogTableState>,
    changes: Seq<ChangeView>,
    order: Seq<usize>,
    e: ErrorView,
) -> bool {
    &&& is_order(state_ids(tables), order)
    &&& first_refusal(
        0,
        tables.len() as int,
        |a: int| plan_refusal(planned_table(tables[order[a] as int], changes)),
    ) == Some(e)
}

pub open spec fn manifests_planned(
    tables: Seq<CatalogTableState>,
    changes: Seq<ChangeView>,
    plans: Seq<(u128, ManifestPlan)>,
) -> bool {
    exists|order: Seq<usize>| #[trigger] is_manifest_plan(tables, changes, order, plans)
}

pub open spec fn manifests_refused(
    tables: Seq<CatalogTableState>,
    changes: Seq<ChangeView>,
    e: ErrorView,
) -> bool {
    exists|order: Seq<usize>| #[trigger] is_manifest_refusal(tables, changes, order, e)
}

/// Decides on the manifests of all tables that the catalog has.
pub fn stage_table_manifests(
    tables: &Vec<CatalogTableState>,
    changes: &Vec<TableSegmentChange>,
) -> (r: Result<Vec<(u128, ManifestPlan)>, Error>)
    ensures
        match r {
            Ok(plans) => manifests_planned(tables@, change_views(changes@), plans@),
            Err(e) => manifests_refused(tables@, change_views(changes@), e@),
        },
{
    let ghost views = change_views(changes@);
    let mut keys: Vec<u128> = Vec::new();
    let mut i: usize = 0;
    while i < tables.len()
        invariant
            0 <= i <= tables@.len(),
            keys@ == state_ids(tables@).take(i as int),
        decreases tables@.len() - i,
    {
        keys.push(tables[i].table_id);
        i = i + 1;
        assert(keys@ =~= state_ids(tables@).take(i as int));
    }
    assert(keys@ =~= state_ids(tables@));
    let order: Vec<usize> = order_of(keys);
    let ghost n = tables@.len() as int;
    let ghost check = |a: int| plan_refusal(planned_table(tables@[order@[a] as int], views));
    let mut plans: Vec<(u128, ManifestPlan)> = Vec::new();
    let mut a: usize = 0;
    while a < order.len()
        invariant
            0 <= a <= order@.len(),
            n == tables@.len(),
            views == change_views(changes@),
            is_order(state_ids(tables@), order@),
            check == (|a: int| plan_refusal(planned_table(tables@[order@[a] as int], views))),
            first_refusal(0, n, check) == first_refusal(a as int, n, check),
            plans@.len() == a,
            forall|k: int|
                0 <= k < a ==> (#[trigger] plans@[k]).0 == tables@[order@[k] as int].table_id
                    && planned_table(tables@[order@[k] as int], views) == Ok::<
                    PlanView,
                    ErrorView,
                >(plans@[k].1@),
        decreases order@.len() - a,
    {
        let at: usize = order[a];
        match plan_table_manifest(&tables[at], changes) {
            Err(e) => {
                assert(check(a as int) == Some(e@));
                assert(is_manifest_refusal(tables@, views, order@, e@));
                assert(manifests_refused(tables@, views, e@));
                return Err(e);
            },
            Ok(plan) => {
                assert(check(a as int) is None);
                plans.push((tables[at].table_id, plan));
            },
        }
        a = a + 1;
    }
    assert(is_manifest_plan(tables@, views, order@, plans@));
    assert(manifests_planned(tables@, views, plans@));
    Ok(plans)
}

/// Most rows of one tombstone artifact.
pub const TOMBSTONE_ARTIFACT_ROWS: usize = 0xffff_ffff;

/// A replacement of a table's tombstone artifacts.
#[derive(Debug)]
pub struct TombstoneReplacement {
    /// Every tombstone segment the selected manifest lists.
    pub removals: Vec<u128>,
    /// Encoded row identities with their commit sequences, in order.
    pub rows: Vec<(u64, u64)>,
}

pub open spec fn is_tombstone(s: SegmentDescriptor) -> bool {
    s.kind == SegmentKind::Tombstones
}

pub open spec fn tombstone_ids(segments: Seq<SegmentDescriptor>) -> Seq<u128> {
    segments.filter(|s: SegmentDescriptor| is_tombstone(s)).map_values(
        |s: SegmentDescriptor| s.id,
    )
}

/// Plans the complete replacement of a table's tombstones. All of them carry
/// the sequence at which they became visible.
pub fn stage_tombstone_replacement(
    source: &Vec<SegmentDescriptor>,
    tombstones: Vec<(u64, u64)>,
) -> (r: Result<TombstoneReplacement, Error>)
    ensures
        refusal(r) == (if exists|i: int|
            0 <= i < tombstones@.len() && (#[trigger] tombstones@[i]).1 == 0 {
            Some(ErrorView::Internal("committed tombstone has a zero visibility sequence"@))
        } else {
            None
        }),
        r matches Ok(t) ==> t.removals@ == tombstone_ids(source@) && is_sorted(t.rows@)
            && is_permutation(t.rows@, tombstones@),
{
    let mut i: usize = 0;
    while i < tombstones.len()
        invariant
            0 <= i <= tombstones@.len(),
            forall|k: int| 0 <= k < i ==> (#[trigger] tombstones@[k]).1 != 0,
        decreases tombstones@.len() - i,
    {
        if tombstones[i].1 == 0 {
            assert(tombstones@[i as int].1 == 0);
            return Err(Error::internal("committed tombstone has a zero visibility sequence"));
        }
        i = i + 1;
    }
    let ghost keep = |s: SegmentDescriptor| is_tombstone(s);
    let mut removals: Vec<u128> = Vec::new();
    let mut k: usize = 0;
    assert(source@.take(0).filter(keep) =~= Seq::<SegmentDescriptor>::empty()) by {
        reveal(Seq::filter);
    }
    while k < source.len()
        invariant
            0 <= k <= source@.len(),
            keep == (|s: SegmentDescriptor| is_tombstone(s)),
            removals@ == source@.take(k as int).filter(keep).map_values(
                |s: SegmentDescriptor| s.id,
            ),
        decreases source@.len() - k,
    {
        proof {
            lemma_filter_push(source@, k as int, keep);
        }
        let ghost before = source@.take(k as int).filter(keep);
        if source[k].kind == SegmentKind::Tombstones {
            removals.push(source[k].id);
            assert(removals@ =~= before.push(source@[k as int]).map_values(
                |s: SegmentDescriptor| s.id,
            ));
        }
        k = k + 1;
    }
    assert(source@.take(k as int) =~= source@);
    Ok(TombstoneReplacement { removals, rows: sorted(tombstones) })
}

/// One tombstone artifact.
#[derive(Debug, Clone, Copy, PartialEq, Eq, Structural)]
pub struct TombstoneChunk {
    pub from: usize,
    pub to: usize,
    pub row_count: u64,
    pub min_transaction_id: u64,
    pub max_transaction_id: u64,
    pub first_row_id: u64,
    pub last_row_id: u64,
}

pub open spec fn least_seq(rows: Seq<(u64, u64)>, from: int, to: int) -> int
    decreases to - from,
{
    if from >= to - 1 {
        rows[from].1 as int
    } else {
        spec_min(least_seq(rows, from, to - 1), rows[to - 1].1 as int)
    }
}

pub open spec fn greatest_seq(rows: Seq<(u64, u64)>, from: int, to: int) -> int
    decreases to - from,
{
    if from >= to - 1 {
        rows[from].1 as int
    } else {
        spec_max(greatest_seq(rows, from, to - 1), rows[to - 1].1 as int)
    }
}

/// The artifact that starts at a row: full, or with the rows that are left.
pub open spec fn chunk_at(rows: Seq<(u64, u64)>, from: int, limit: int) -> TombstoneChunk {
    let to = spec_min(from + limit, rows.len() as int);
    TombstoneChunk {
        from: from as usize,
        to: to as usize,
        row_count: (to - from) as u64,
        min_transaction_id: least_seq(rows, from, to) as u64,
        max_transaction_id: greatest_seq(rows, from, to) as u64,
        first_row_id: rows[from].0,
        last_row_id: rows[to - 1].0,
    }
}

/// The artifacts from a row on.
pub open spec fn chunks_from(rows: Seq<(u64, u64)>, from: int, limit: int) -> Seq<TombstoneChunk>
    decreases rows.len() - from,
{
    if from < 0 || from >= rows.len() || limit <= 0 {
        Seq::empty()
    } else {
        seq![chunk_at(rows, from, limit)] + chunks_from(
            rows,
            spec_min(from + limit, rows.len() as int),
            limit,
        )
    }
}

/// Splits the tombstones into artifacts of at most `limit` rows.
pub fn tombstone_chunks(rows: &Vec<(u64, u64)>, limit: usize) -> (r: Vec<TombstoneChunk>)
    requires
        limit > 0,
    ensures
        r@ == chunks_from(rows@, 0, limit as int),
{
    let n: usize = rows.len();
    let mut out: Vec<TombstoneChunk> = Vec::new();
    let mut from: usize = 0;
    while from < n
        invariant
            n == rows@.len(),
            0 <= from <= n,
            limit > 0,
            chunks_from(rows@, 0, limit as int) == out@ + chunks_from(
                rows@,
                from as int,
                limit as int,
            ),
        decreases n - from,
    {
        let to: usize = if n - from > limit {
            from + limit
        } else {
            n
        };
        let mut least: u64 = rows[from].1;
        let mut greatest: u64 = rows[from].1;
        let mut k: usize = from + 1;
        while k < to
            invariant
                from < to <= n,
                n == rows@.len(),
                from + 1 <= k <= to,
                least == least_seq(rows@, from as int, k as int),
                greatest == greatest_seq(rows@, from as int, k as int),
            decreases to - k,
        {
            if rows[k].1 < least {
                least = rows[k].1;
            }
            if rows[k].1 > greatest {
                greatest = rows[k].1;
            }
            k = k + 1;
        }
        let chunk = TombstoneChunk {
            from,
            to,
            row_count: (to - from) as u64,
            min_transaction_id: least,
            max_transaction_id: greatest,
            first_row_id: rows[from].0,
            last_row_id: rows[to - 1].0,
        };
        let ghost before = out@;
        out.push(chunk);
        proof {
            assert(chunk == chunk_at(rows@, from as int, limit as int));
            let rest = chunks_from(rows@, to as int, limit as int);
            assert(before + (seq![chunk] + rest) =~= out@ + rest);
        }
        from = to;
    }
    assert(out@ + Seq::<TombstoneChunk>::empty() =~= out@);
    out
}

/// A tombstone artifact that was written.
#[derive(Debug)]
pub struct WrittenTombstones {
    pub segment_id: u128,
    /// Planned size of a row group, or the text of the fault that there is
    /// none.
    pub row_group_rows: Result<u32, String>,
    pub artifact: ArtifactRef,
    /// Where it was written, and where its identity puts it.
    pub path: String,
    pub locator: String,
}

/// Why one artifact stops the replacement, in the order in which it is found.
pub open spec fn tombstone_refusal(chunk: TombstoneChunk, w: WrittenTombstones) -> Option<
    ErrorView,
> {
    match w.row_group_rows {
        Err(text) => Some(publication_message(text@)),
        Ok(rows) => if group_count(chunk.row_count as int, rows as int) > u32::MAX {
            Some(ErrorView::Internal("tombstone row-group count exceeds u32"@))
        } else if w.path@ != w.locator@ {
            Some(ErrorView::Internal("tombstone writer returned a non-canonical DATA locator"@))
        } else {
            None
        },
    }
}

/// The segment of a tombstone artifact.
pub open spec fn tombstone_descriptor(
    chunk: TombstoneChunk,
    w: WrittenTombstones,
) -> SegmentDescriptor {
    SegmentDescriptor {
        id: w.segment_id,
        kind: SegmentKind::Tombstones,
        tier: SegmentTier::L0,
        min_transaction_id: chunk.min_transaction_id,
        max_transaction_id: chunk.max_transaction_id,
        row_count: chunk.row_count,
        first_row_id: chunk.first_row_id,
        last_row_id: chunk.last_row_id,
        data: w.artifact,
        index: None,
    }
}

pub open spec fn tombstone_check(
    chunks: Seq<TombstoneChunk>,
    written: Seq<WrittenTombstones>,
) -> spec_fn(int) -> Option<ErrorView> {
    |i: int| tombstone_refusal(chunks[i], written[i])
}

/// The change that replaces a table's tombstone segments by the written ones,
/// one for each chunk.
pub fn tombstone_change(
    table_id: u128,
    removals: Vec<u128>,
    chunks: &Vec<TombstoneChunk>,
    written: &Vec<WrittenTombstones>,
    tombstone_ack: Option<u64>,
) -> (r: Result<TableSegmentChange, Error>)
    requires
        written@.len() == chunks@.len(),
        forall|i: int|
            0 <= i < written@.len() ==> ((#[trigger] written@[i]).row_group_rows matches Ok(n)
                ==> n > 0),
    ensures
        refusal(r) == first_refusal(
            0,
            chunks@.len() as int,
            tombstone_check(chunks@, written@),
        ),
        r matches Ok(change) ==> change@ == (ChangeView {
            table_id,
            additions: Seq::new(
                chunks@.len(),
                |i: int| tombstone_descriptor(chunks@[i], written@[i]),
            ),
            removals: removals@,
            tombstone_ack,
        }),
{
    let ghost check = tombstone_check(chunks@, written@);
    let ghost n = chunks@.len() as int;
    let mut additions: Vec<SegmentDescriptor> = Vec::new();
    let mut i: usize = 0;
    while i < chunks.len()
        invariant
            0 <= i <= chunks@.len(),
            n == chunks@.len(),
            check == tombstone_check(chunks@, written@),
            written@.len() == chunks@.len(),
            forall|i: int|
                0 <= i < written@.len() ==> ((#[trigger] written@[i]).row_group_rows matches Ok(n)
                    ==> n > 0),
            first_refusal(0, n, check) == first_refusal(i as int, n, check),
            additions@ == Seq::new(
                i as nat,
                |k: int| tombstone_descriptor(chunks@[k], written@[k]),
            ),
        decreases chunks@.len() - i,
    {
        let chunk: TombstoneChunk = chunks[i];
        let w: &WrittenTombstones = &written[i];
        let ghost found = check(i as int);
        let group_rows: u64 = match &w.row_group_rows {
            Ok(rows) => *rows as u64,
            Err(text) => {
                assert(found is Some);
                return Err(format_error(text.as_str()));
            },
        };
        let full: u64 = chunk.row_count / group_rows;
        if full > 0xffff_ffff || (full == 0xffff_ffff && chunk.row_count % group_rows != 0) {
            assert(found is Some);
            return Err(Error::internal("tombstone row-group count exceeds u32"));
        }
        if !same_text(w.path.as_str(), w.locator.as_str()) {
            assert(found is Some);
            return Err(Error::internal("tombstone writer returned a non-canonical DATA locator"));
        }
        assert(found is None);
        additions.push(
            SegmentDescriptor {
                id: w.segment_id,
                kind: SegmentKind::Tombstones,
                tier: SegmentTier::L0,
                min_transaction_id: chunk.min_transaction_id,
                max_transaction_id: chunk.max_transaction_id,
                row_count: chunk.row_count,
                first_row_id: chunk.first_row_id,
                last_row_id: chunk.last_row_id,
                data: w.artifact,
                index: None,
            },
        );
        i = i + 1;
        assert(additions@ =~= Seq::new(
            i as nat,
            |k: int| tombstone_descriptor(chunks@[k], written@[k]),
        ));
    }
    Ok(TableSegmentChange { table_id, additions, removals, tombstone_ack })
}

/// The chunks of tombstones from a row on follow each other without a gap,
/// none of them empty or over the limit, and together they hold all rows.
pub proof fn law_chunks_hold_every_tombstone(rows: Seq<(u64, u64)>, from: int, limit: int)
    requires
        0 <= from <= rows.len(),
        rows.len() <= usize::MAX,
        0 < limit,
    ensures
        ({
            let chunks = chunks_from(rows, from, limit);
            &&& forall|i: int|
                0 <= i < chunks.len() ==> {
                    &&& (#[trigger] chunks[i]).from == from + i * limit
                    &&& chunks[i].to == spec_min(from + i * limit + limit, rows.len() as int)
                    &&& chunks[i].from < chunks[i].to
                    &&& chunks[i].row_count == chunks[i].to - chunks[i].from
                }
            &&& from + chunks.len() * limit >= rows.len()
        }),
    decreases rows.len() - from,
{
    let chunks = chunks_from(rows, from, limit);
    if from < rows.len() {
        let next = spec_min(from + limit, rows.len() as int);
        law_chunks_hold_every_tombstone(rows, next, limit);
        let rest = chunks_from(rows, next, limit);
        assert(chunks == seq![chunk_at(rows, from, limit)] + rest);
        if next == rows.len() {
            assert(rest.len() == 0);
        }
        assert forall|i: int| 0 <= i < chunks.len() implies {
            &&& (#[trigger] chunks[i]).from == from + i * limit
            &&& chunks[i].to == spec_min(from + i * limit + limit, rows.len() as int)
            &&& chunks[i].from < chunks[i].to
            &&& chunks[i].row_count == chunks[i].to - chunks[i].from
        } by {
            if i == 0 {
                assert(i * limit == 0) by (nonlinear_arith)
                    requires
                        i == 0,
                ;
            } else {
                assert(chunks[i] == rest[i - 1]);
                assert(next + (i - 1) * limit == from + i * limit) by (nonlinear_arith)
                    requires
                        next == from + limit,
                ;
            }
        }
        assert(chunks.len() * limit == rest.len() * limit + limit) by (nonlinear_arith)
            requires
                chunks.len() == rest.len() + 1,
        ;
    }
}

/// A published manifest holds every segment that the change did not remove,
/// and none that it removed without adding it again.
pub proof fn law_manifest_keeps_what_was_not_removed(
    segments: Seq<SegmentDescriptor>,
    change: ChangeView,
    s: SegmentDescriptor,
)
    ensures
        changed_segments(segments, Some(change)).contains(s) <==> (segments.contains(s)
            && !change.removals.contains(s.id)) || change.additions.contains(s),
{
    broadcast use vstd::seq_lib::group_filter_ensures;

    let keep = keeps_segment(change.removals);
    let kept = segments.filter(keep);
    let all = changed_segments(segments, Some(change));
    if kept.contains(s) {
        let k = choose|k: int| 0 <= k < kept.len() && kept[k] == s;
        assert(all[k] == s);
        segments.lemma_filter_contains_rev(keep, s);
    }
    if change.additions.contains(s) {
        let k = choose|k: int| 0 <= k < change.additions.len() && change.additions[k] == s;
        assert(all[kept.len() + k] == s);
    }
    if segments.contains(s) && !change.removals.contains(s.id) {
        let i = choose|i: int| 0 <= i < segments.len() && segments[i] == s;
        segments.lemma_filter_contains(keep, i);
    }
    if all.contains(s) {
        let k = choose|k: int| 0 <= k < all.len() && all[k] == s;
        if k < kept.len() {
            assert(kept[k] == s);
            segments.lemma_filter_contains_rev(keep, s);
        } else {
            assert(change.additions[k - kept.len()] == s);
        }
    }
}

/// After a replacement the tombstones of a table are exactly those that were
/// written: no marker of an earlier generation can hide a later row.
pub proof fn law_tombstones_are_replaced_whole(
    segments: Seq<SegmentDescriptor>,
    change: ChangeView,
    s: SegmentDescriptor,
)
    requires
        change.removals == tombstone_ids(segments),
        is_tombstone(s),
    ensures
        changed_segments(segments, Some(change)).contains(s) <==> change.additions.contains(s),
{
    law_manifest_keeps_what_was_not_removed(segments, change, s);
    if segments.contains(s) {
        let keep = |s: SegmentDescriptor| is_tombstone(s);
        let i = choose|i: int| 0 <= i < segments.len() && segments[i] == s;
        segments.lemma_filter_contains(keep, i);
        let kept = segments.filter(keep);
        let k = choose|k: int| 0 <= k < kept.len() && kept[k] == s;
        assert(tombstone_ids(segments)[k] == s.id);
    }
}

pub open spec fn segment_ids(segments: Seq<SegmentDescriptor>) -> Seq<u128> {
    segments.map_values(|s: SegmentDescriptor| s.id)
}

/// Identities of the segments that are in a list.
pub open spec fn listed_ids(segments: Seq<SegmentDescriptor>, ids: Seq<u128>, n: int) -> Set<u128>
    decreases n,
{
    if n <= 0 {
        Set::empty()
    } else if ids.contains(segments[n - 1].id) {
        listed_ids(segments, ids, n - 1).insert(segments[n - 1].id)
    } else {
        listed_ids(segments, ids, n - 1)
    }
}

proof fn lemma_listed_ids(segments: Seq<SegmentDescriptor>, ids: Seq<u128>, n: int)
    requires
        0 <= n <= segments.len(),
        segment_ids(segments).no_duplicates(),
    ensures
        listed_ids(segments, ids, n).finite(),
        forall|id: u128| #[trigger]
            listed_ids(segments, ids, n).contains(id) <==> ids.contains(id) && exists|k: int|
                0 <= k < n && (#[trigger] segments[k]).id == id,
        listed_ids(segments, ids, n).len() + segments.take(n).filter(keeps_segment(ids)).len()
            == n,
    decreases n,
{
    if n > 0 {
        lemma_listed_ids(segments, ids, n - 1);
        lemma_filter_push(segments, n - 1, keeps_segment(ids));
        let before = listed_ids(segments, ids, n - 1);
        let id = segments[n - 1].id;
        assert(!before.contains(id)) by {
            if before.contains(id) {
                let k = choose|k: int| 0 <= k < n - 1 && (#[trigger] segments[k]).id == id;
                assert(segment_ids(segments)[k] == segment_ids(segments)[n - 1]);
            }
        }
        assert forall|x: u128| #[trigger]
            listed_ids(segments, ids, n).contains(x) <==> ids.contains(x) && exists|k: int|
                0 <= k < n && (#[trigger] segments[k]).id == x by {
            if before.contains(x) {
                let k = choose|k: int| 0 <= k < n - 1 && (#[trigger] segments[k]).id == x;
                assert(segments[k].id == x);
            }
            if ids.contains(x) && x == id {
                assert(segments[n - 1].id == x);
            }
        }
    } else {
        assert(segments.take(0).filter(keeps_segment(ids)).len() == 0) by {
            reveal(Seq::filter);
        }
    }
}

proof fn lemma_new_count(change: ChangeView, n: int)
    requires
        0 <= n <= change.additions.len(),
    ensures
        new_segments(change, n) == change.additions.take(n).filter(
            keeps_segment(change.removals),
        ).len(),
    decreases n,
{
    if n > 0 {
        lemma_new_count(change, n - 1);
        lemma_filter_push(change.additions, n - 1, keeps_segment(change.removals));
    } else {
        assert(change.additions.take(0).filter(keeps_segment(change.removals)).len() == 0) by {
            reveal(Seq::filter);
        }
    }
}

/// A sequence that is above its manifest stays above it: what is published
/// can be read back. A change may rewrite a segment under its identity, but
/// only one that the manifest has.
pub proof fn law_sequence_owns_manifest(source: SourceView, change: ChangeView)
    requires
        source.next_segment_sequence > source.segments.len(),
        segment_ids(source.segments).no_duplicates(),
        segment_ids(change.additions).no_duplicates(),
        forall|k: int|
            0 <= k < change.additions.len() && change.removals.contains(
                (#[trigger] change.additions[k]).id,
            ) ==> segment_ids(source.segments).contains(change.additions[k].id),
    ensures
        next_sequence(Some(source), Some(change)) > changed_segments(
            source.segments,
            Some(change),
        ).len(),
{
    let n = source.segments.len() as int;
    let m = change.additions.len() as int;
    lemma_listed_ids(source.segments, change.removals, n);
    lemma_listed_ids(change.additions, change.removals, m);
    lemma_new_count(change, m);
    assert(source.segments.take(n) =~= source.segments);
    assert(change.additions.take(m) =~= change.additions);
    let removed = listed_ids(source.segments, change.removals, n);
    let rewritten = listed_ids(change.additions, change.removals, m);
    assert(rewritten.subset_of(removed)) by {
        assert forall|id: u128| rewritten.contains(id) implies removed.contains(id) by {
            let k = choose|k: int| 0 <= k < m && (#[trigger] change.additions[k]).id == id;
            assert(segment_ids(source.segments).contains(change.additions[k].id));
            let i = choose|i: int|
                0 <= i < segment_ids(source.segments).len() && segment_ids(source.segments)[i]
                    == id;
            assert(source.segments[i].id == id);
        }
    }
    vstd::set_lib::lemma_len_subset(rewritten, removed);
}

/// A table whose tombstones a checkpoint may have to publish.
#[derive(Debug)]
pub struct TombstoneOwner {
    pub table_name: String,
    /// Identity of the table's schema; none where the table has no schema.
    pub catalog_id: Option<Result<u128, String>>,
    /// Whether the catalog still lists the table.
    pub is_listed: bool,
    /// Whether it has tombstones that no artifact holds.
    pub is_dirty: bool,
}

/// Why one owner stops the publication.
pub open spec fn owner_refusal(owner: TombstoneOwner) -> Option<ErrorView> {
    match owner.catalog_id {
        Some(Err(text)) => Some(
            ErrorView::Internal(
                "table '"@ + owner.table_name@
                    + "' has invalid catalog identity during tombstone publication: "@ + text@,
            ),
        ),
        _ => None,
    }
}

/// The table that one owner has to publish.
pub open spec fn dirty_table(owner: TombstoneOwner) -> Option<u128> {
    match owner.catalog_id {
        Some(Ok(id)) => if owner.is_listed && owner.is_dirty {
            Some(id)
        } else {
            None
        },
        _ => None,
    }
}

pub open spec fn dirty_tables(owners: Seq<TombstoneOwner>, n: int) -> Seq<u128>
    decreases n,
{
    if n <= 0 {
        Seq::empty()
    } else {
        match dirty_table(owners[n - 1]) {
            Some(id) => dirty_tables(owners, n - 1).push(id),
            None => dirty_tables(owners, n - 1),
        }
    }
}

pub open spec fn owner_check(owners: Seq<TombstoneOwner>) -> spec_fn(int) -> Option<ErrorView> {
    |i: int| owner_refusal(owners[i])
}

/// The tables whose tombstones a checkpoint replaces, in the order of their
/// identities.
pub fn stage_checkpoint_tombstones(owners: &Vec<TombstoneOwner>) -> (r: Result<Vec<u128>, Error>)
    ensures
        refusal(r) == first_refusal(0, owners@.len() as int, owner_check(owners@)),
        r matches Ok(tables) ==> is_sorted(tables@) && is_permutation(
            tables@,
            dirty_tables(owners@, owners@.len() as int),
        ),
{
    let ghost check = owner_check(owners@);
    let mut tables: Vec<u128> = Vec::new();
    let mut i: usize = 0;
    while i < owners.len()
        invariant
            0 <= i <= owners@.len(),
            check == owner_check(owners@),
            first_refusal(0, owners@.len() as int, check) == first_refusal(
                i as int,
                owners@.len() as int,
                check,
            ),
            tables@ == dirty_tables(owners@, i as int),
        decreases owners@.len() - i,
    {
        let owner: &TombstoneOwner = &owners[i];
        match &owner.catalog_id {
            Some(Err(text)) => {
                let message: String = String::from_str("table '").concat(
                    owner.table_name.as_str(),
                ).concat(
                    "' has invalid catalog identity during tombstone publication: ",
                ).concat(text.as_str());
                assert(check(i as int) is Some);
                return Err(Error::Internal { message });
            },
            Some(Ok(id)) => {
                if owner.is_listed && owner.is_dirty {
                    tables.push(*id);
                }
            },
            None => {},
        }
        assert(check(i as int) is None);
        i = i + 1;
    }
    Ok(sorted(tables))
}

} // verus!
