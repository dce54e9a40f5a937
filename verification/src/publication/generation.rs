//! Putting a generation together from the changes of its tables.
use super::control::other_slot;
use super::control::publication_transaction_high_water;
use super::control::recorded_high_water;
use super::control::stages_catalog;
use super::control::successor_control;
use super::control::CatalogMeta;
use super::control::CatalogRoot;
use super::control::ControlRecord;
use super::control::WalReplayFloor;
use super::manifests::changed_segments;
use super::manifests::is_manifest_plan;
use super::manifests::keeps_segment;
use super::manifests::manifests_planned;
use super::manifests::manifests_refused;
use super::manifests::new_segments;
use super::manifests::next_sequence;
use super::manifests::planned_manifest;
use super::manifests::planned_table;
use super::manifests::stage_table_manifests;
use super::manifests::state_ids;
use super::manifests::table_change;
use super::manifests::CatalogTableState;
use super::manifests::ManifestPlan;
use super::manifests::PlanView;
use super::manifests::SourceView;
use super::segments::change_of;
use super::segments::change_views;
use super::segments::is_settled_order;
use super::segments::joined_changes;
use super::segments::merge_segment_changes;
use super::segments::ChangeView;
use super::segments::SegmentDescriptor;
use super::segments::TableSegmentChange;
use crate::error::refusal;
use crate::error::Error;
use crate::error::ErrorView;
use crate::sort::is_order;
use crate::sort::lists;
use vstd::prelude::*;

verus! {

/// What a generation is put together from.
#[derive(Debug)]
pub struct GenerationRequest {
    pub control: ControlRecord,
    pub meta: CatalogMeta,
    /// Identity of the new database manifest.
    pub manifest_id: u128,
    /// Tables of the catalog as the selected generation has them.
    pub tables: Vec<CatalogTableState>,
    /// Transaction frontier that the selected generation records.
    pub persisted_high_water: u64,
    /// Transaction frontier of the log, where there is one.
    pub log_high_water: Option<i64>,
}

/// A generation that may be staged.
#[derive(Debug)]
pub struct PlannedGeneration {
    /// Manifest of each table, by table identity.
    pub manifests: Vec<(u128, ManifestPlan)>,
    /// Whether the catalog has to be written too.
    pub stages_catalog: bool,
    pub transaction_high_water: u64,
    /// The record that selects the generation.
    pub control: ControlRecord,
}

/// The catalog of the next generation: the selected one while it is current.
pub open spec fn generation_catalog(meta: CatalogMeta, current: CatalogRoot) -> CatalogRoot {
    if meta.catalog_generation == current.generation {
        current
    } else {
        CatalogRoot { id: meta.catalog_id, generation: meta.catalog_generation }
    }
}

pub open spec fn is_generation(
    q: GenerationRequest,
    changes: Seq<ChangeView>,
    target_generation: u64,
    floor: WalReplayFloor,
    g: PlannedGeneration,
) -> bool {
    &&& manifests_planned(q.tables@, changes, g.manifests@)
    &&& g.stages_catalog == (q.meta.catalog_generation != q.control.catalog.generation)
    &&& g.transaction_high_water == recorded_high_water(q.persisted_high_water, q.log_high_water)
    &&& g.control == ControlRecord {
        slot: other_slot(q.control.slot),
        database_generation: target_generation,
        database_id: q.control.database_id,
        manifest_id: q.manifest_id,
        catalog: generation_catalog(q.meta, q.control.catalog),
        wal_replay_floor: floor,
    }
}

/// Puts a generation together.
pub fn assemble_generation(
    q: &GenerationRequest,
    changes: &Vec<TableSegmentChange>,
    target_generation: u64,
    floor: WalReplayFloor,
) -> (r: Result<PlannedGeneration, Error>)
    ensures
        match r {
            Ok(g) => is_generation(*q, change_views(changes@), target_generation, floor, g),
            Err(e) => manifests_refused(q.tables@, change_views(changes@), e@),
        },
{
    let manifests: Vec<(u128, ManifestPlan)> = match stage_table_manifests(&q.tables, changes) {
        Ok(manifests) => manifests,
        Err(e) => {
            return Err(e);
        },
    };
    let staged: bool = stages_catalog(q.meta, q.control.catalog);
    let catalog: CatalogRoot = if staged {
        CatalogRoot { id: q.meta.catalog_id, generation: q.meta.catalog_generation }
    } else {
        q.control.catalog
    };
    Ok(
        PlannedGeneration {
            manifests,
            stages_catalog: staged,
            transaction_high_water: publication_transaction_high_water(
                q.persisted_high_water,
                q.log_high_water,
            ),
            control: successor_control(
                q.control,
                target_generation,
                q.manifest_id,
                catalog,
                floor,
            ),
        },
    )
}

/// A checkpoint that may be staged.
#[derive(Debug)]
pub struct CheckpointGeneration {
    /// Changes whose tombstone sets are confirmed once it is published.
    pub changes: Vec<TableSegmentChange>,
    pub generation: PlannedGeneration,
}

/// Whether changes are those of the tombstones joined with those of the rows.
pub open spec fn is_joined(
    tombstones: Seq<ChangeView>,
    rows: Seq<ChangeView>,
    changes: Seq<ChangeView>,
) -> bool {
    match joined_changes(tombstones, rows, 0) {
        Err(_) => false,
        Ok(joined) => (forall|i: int|
            0 <= i < joined.len() ==> (#[trigger] joined[i]).removals.no_duplicates())
            && exists|order: Seq<usize>| #[trigger] is_settled_order(joined, order, changes),
    }
}

/// Why changes cannot be joined.
pub open spec fn join_refusal(tombstones: Seq<ChangeView>, rows: Seq<ChangeView>) -> Option<
    ErrorView,
> {
    match joined_changes(tombstones, rows, 0) {
        Err(e) => Some(e),
        Ok(joined) => if exists|i: int|
            0 <= i < joined.len() && !(#[trigger] joined[i]).removals.no_duplicates() {
            Some(ErrorView::Internal("checkpoint segment change removes one segment twice"@))
        } else {
            None
        },
    }
}

/// Puts the generation of a checkpoint together: what its tables gained and
/// lost, selected from the new replay floor on.
pub fn checkpoint_generation(
    q: &GenerationRequest,
    tombstones: Vec<TableSegmentChange>,
    rows: Vec<TableSegmentChange>,
    target_generation: u64,
    floor: WalReplayFloor,
) -> (r: Result<CheckpointGeneration, Error>)
    ensures
        match r {
            Ok(c) => is_joined(
                change_views(tombstones@),
                change_views(rows@),
                change_views(c.changes@),
            ) && is_generation(*q, change_views(c.changes@), target_generation, floor, c.generation),
            Err(e) => join_refusal(change_views(tombstones@), change_views(rows@)) == Some(e@)
                || exists|changes: Seq<ChangeView>|
                #![trigger manifests_refused(q.tables@, changes, e@)]
                is_joined(change_views(tombstones@), change_views(rows@), changes)
                    && manifests_refused(q.tables@, changes, e@),
        },
{
    let mut changes: Vec<TableSegmentChange> = tombstones;
    match merge_segment_changes(&mut changes, rows) {
        Err(e) => {
            return Err(e);
        },
        Ok(()) => {},
    }
    match assemble_generation(q, &changes, target_generation, floor) {
        Err(e) => Err(e),
        Ok(generation) => Ok(CheckpointGeneration { changes, generation }),
    }
}

/// Log generations that a published checkpoint gave up. Where giving them up
/// was deferred, later maintenance tries again.
pub fn retired_logs(persistence: bool, obsolete: Vec<u64>, complete: bool) -> (r: Result<
    Vec<u64>,
    Error,
>)
    ensures
        refusal(r) == (if persistence {
            None
        } else {
            Some(ErrorView::Internal("physical checkpoint lost its WAL persistence owner"@))
        }),
        r matches Ok(retired) ==> retired@ == if complete {
            obsolete@
        } else {
            Seq::empty()
        },
{
    if !persistence {
        return Err(Error::internal("physical checkpoint lost its WAL persistence owner"));
    }
    if complete {
        Ok(obsolete)
    } else {
        Ok(Vec::new())
    }
}

/// A generation has a manifest for each table of the catalog, and that
/// manifest is the one planned for it.
pub proof fn law_generation_covers_every_table(
    q: GenerationRequest,
    changes: Seq<ChangeView>,
    target_generation: u64,
    floor: WalReplayFloor,
    g: PlannedGeneration,
    i: int,
)
    requires
        is_generation(q, changes, target_generation, floor, g),
        0 <= i < q.tables@.len(),
    ensures
        g.manifests@.len() == q.tables@.len(),
        exists|a: int|
            0 <= a < g.manifests@.len() && (#[trigger] g.manifests@[a]).0 == q.tables@[i].table_id
                && planned_table(q.tables@[i], changes) == Ok::<PlanView, ErrorView>(
                g.manifests@[a].1@,
            ),
{
    let order = choose|order: Seq<usize>| #[trigger]
        is_manifest_plan(q.tables@, changes, order, g.manifests@);
    assert(is_order(state_ids(q.tables@), order));
    assert(state_ids(q.tables@).len() == q.tables@.len());
    assert(lists(order, i));
    let a = choose|a: int| 0 <= a < order.len() && order[a] == i;
    assert(g.manifests@[a].0 == q.tables@[order[a] as int].table_id);
}

proof fn lemma_nothing_removed(segments: Seq<SegmentDescriptor>)
    ensures
        segments.filter(keeps_segment(Seq::empty())) == segments,
    decreases segments.len(),
{
    reveal(Seq::filter);
    let keep = keeps_segment(Seq::empty());
    if segments.len() > 0 {
        lemma_nothing_removed(segments.drop_last());
        assert(!Seq::<u128>::empty().contains(segments.last().id));
        assert(keep(segments.last()));
        assert(segments.drop_last().push(segments.last()) =~= segments);
    } else {
        assert(segments.filter(keep) =~= segments);
    }
}

/// Adding a segment to a table keeps all it has, puts the segment behind
/// them, and leaves every other table's manifest as it is.
pub proof fn law_sealing_loses_nothing(
    table_id: u128,
    segment: SegmentDescriptor,
    source: SourceView,
    auto_increment: Option<i64>,
    other: u128,
    reference: u128,
)
    requires
        source.next_segment_sequence < u64::MAX,
        source.reference == Some(reference),
    ensures
        ({
            let change = ChangeView {
                table_id,
                additions: seq![segment],
                removals: Seq::empty(),
                tombstone_ack: None,
            };
            let changes = seq![change];
            &&& planned_manifest(
                Some(source),
                auto_increment,
                table_change(changes, table_id),
            ) matches Ok(PlanView::Write { segments, next_segment_sequence, .. })
                && segments == source.segments.push(segment) && next_segment_sequence
                == source.next_segment_sequence + 1
            &&& other != table_id ==> planned_manifest(
                Some(source),
                auto_increment,
                table_change(changes, other),
            ) == Ok::<PlanView, ErrorView>(PlanView::Reuse { reference })
        }),
{
    let change = ChangeView {
        table_id,
        additions: seq![segment],
        removals: Seq::empty(),
        tombstone_ack: None,
    };
    let changes = seq![change];
    reveal_with_fuel(change_of, 2);
    reveal_with_fuel(new_segments, 2);
    assert(changes[0] == change);
    assert(change_of(changes, table_id, 0) == Some(0int));
    lemma_nothing_removed(source.segments);
    assert(changed_segments(source.segments, Some(change)) =~= source.segments.push(segment));
    assert(!change.removals.contains(change.additions[0].id));
    assert(next_sequence(Some(source), Some(change)) == source.next_segment_sequence + 1);
    if other != table_id {
        assert(change_of(changes, other, 0) is None);
    }
}

} // verus!
