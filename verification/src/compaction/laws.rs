//! What compaction is for: work is found where there is any, deleted rows go,
//! and nobody who reads sees a difference.
use super::merge::id_streams;
use super::merge::is_merge_of;
use super::merge::holds;
use super::plan::candidate_of;
use super::plan::candidates_of;
use super::plan::is_selected_run;
use super::plan::loaded_index;
use super::plan::mergeable_window;
use super::plan::needs_compaction;
use super::plan::run_bytes;
use super::plan::run_fits;
use super::plan::run_is_useful;
use super::plan::CompactionCandidate;
use super::plan::SegmentLevel;
use super::plan::SegmentRecord;
use super::plan::SegmentVolume;
use super::plan::TableCompactionView;
use super::row_ref::CompactionRowRef;
use super::tombstones::is_fully_retired;
use super::tombstones::surviving_tombstones;
use vstd::prelude::*;

verus! {

/// The first loaded volume of a segment stands at this position.
pub open spec fn is_loaded_at(loaded: Seq<SegmentVolume>, segment_id: u64, at: int) -> bool {
    &&& 0 <= at < loaded.len()
    &&& loaded[at].segment_id == segment_id
    &&& forall|j: int| 0 <= j < at ==> (#[trigger] loaded[j]).segment_id != segment_id
}

/// A snapshot may still need rows of the segment: it was sealed behind the
/// snapshot, or a row of it was deleted behind the snapshot.
pub open spec fn is_needed_by_snapshot(
    segment: SegmentRecord,
    volume: SegmentVolume,
    tombstones: Map<i64, u64>,
    boundary: Option<u64>,
) -> bool {
    boundary matches Some(limit) && {
        ||| segment.seal_seq > limit
        ||| exists|k: int|
            0 <= k < volume.row_ids@.len() && tombstones.dom().contains(
                #[trigger] volume.row_ids@[k],
            ) && tombstones[volume.row_ids@[k]] >= limit
    }
}

/// A row of the volume is deleted.
pub open spec fn holds_deleted_row(volume: SegmentVolume, tombstones: Map<i64, u64>) -> bool {
    exists|k: int|
        0 <= k < volume.row_ids@.len() && tombstones.dom().contains(#[trigger] volume.row_ids@[k])
}

proof fn lemma_loaded_at(loaded: Seq<SegmentVolume>, segment_id: u64)
    ensures
        match loaded_index(loaded, segment_id) {
            Some(at) => is_loaded_at(loaded, segment_id, at),
            None => forall|j: int|
                0 <= j < loaded.len() ==> (#[trigger] loaded[j]).segment_id != segment_id,
        },
    decreases loaded.len(),
{
    if loaded.len() > 0 && loaded[0].segment_id != segment_id {
        let rest = loaded.drop_first();
        lemma_loaded_at(rest, segment_id);
        match loaded_index(rest, segment_id) {
            Some(at) => {
                assert forall|j: int| 0 <= j < at + 1 implies (
                #[trigger] loaded[j]).segment_id != segment_id by {
                    if j > 0 {
                        assert(rest[j - 1] == loaded[j]);
                    }
                }
                assert(rest[at] == loaded[at + 1]);
            },
            None => {
                assert forall|j: int| 0 <= j < loaded.len() implies (
                #[trigger] loaded[j]).segment_id != segment_id by {
                    if j > 0 {
                        assert(rest[j - 1] == loaded[j]);
                    }
                }
            },
        }
    }
}

proof fn lemma_candidates(
    segments: Seq<SegmentRecord>,
    n: int,
    loaded: Seq<SegmentVolume>,
    tombstones: Map<i64, u64>,
    boundary: Option<u64>,
    tier_target_rows: usize,
)
    requires
        0 <= n <= segments.len() <= usize::MAX,
    ensures
        ({
            let out = candidates_of(segments, n, loaded, tombstones, boundary, tier_target_rows);
            &&& forall|k: int|
                0 <= k < out.len() ==> {
                    let i = (#[trigger] out[k]).manifest_index as int;
                    &&& i < n
                    &&& candidate_of(
                        i,
                        segments[i],
                        loaded,
                        tombstones,
                        boundary,
                        tier_target_rows,
                    ) == Some(out[k])
                }
            &&& forall|a: int, b: int|
                0 <= a < b < out.len() ==> (#[trigger] out[a]).manifest_index < (
                #[trigger] out[b]).manifest_index
            &&& forall|i: int|
                0 <= i < n ==> (#[trigger] candidate_of(
                    i,
                    segments[i],
                    loaded,
                    tombstones,
                    boundary,
                    tier_target_rows,
                ) matches Some(c) ==> out.contains(c))
        }),
    decreases n,
{
    if n > 0 {
        lemma_candidates(segments, n - 1, loaded, tombstones, boundary, tier_target_rows);
        let earlier = candidates_of(
            segments,
            n - 1,
            loaded,
            tombstones,
            boundary,
            tier_target_rows,
        );
        let out = candidates_of(segments, n, loaded, tombstones, boundary, tier_target_rows);
        assert forall|i: int| 0 <= i < n implies (#[trigger] candidate_of(
            i,
            segments[i],
            loaded,
            tombstones,
            boundary,
            tier_target_rows,
        ) matches Some(c) ==> out.contains(c)) by {
            if let Some(c) = candidate_of(
                i,
                segments[i],
                loaded,
                tombstones,
                boundary,
                tier_target_rows,
            ) {
                if i < n - 1 {
                    assert(earlier.contains(c));
                    let k = choose|k: int| 0 <= k < earlier.len() && earlier[k] == c;
                    assert(out[k] == c);
                } else {
                    assert(out[earlier.len() as int] == c);
                }
            }
        }
        assert forall|k: int| 0 <= k < out.len() implies {
            let i = (#[trigger] out[k]).manifest_index as int;
            &&& i < n
            &&& candidate_of(i, segments[i], loaded, tombstones, boundary, tier_target_rows)
                == Some(out[k])
        } by {
            if k < earlier.len() {
                assert(out[k] == earlier[k]);
            }
        }
        assert forall|a: int, b: int| 0 <= a < b < out.len() implies (
        #[trigger] out[a]).manifest_index < (#[trigger] out[b]).manifest_index by {
            if b < earlier.len() {
                assert(out[a] == earlier[a] && out[b] == earlier[b]);
            } else {
                assert(out[a] == earlier[a]);
            }
        }
    }
}

/// The planner takes a segment with this mark.
pub open spec fn is_planned(
    out: Seq<CompactionCandidate>,
    index: int,
    must_rewrite: bool,
) -> bool {
    exists|k: int|
        0 <= k < out.len() && (#[trigger] out[k]).manifest_index == index && out[k].must_rewrite
            == must_rewrite
}

/// Every loaded segment that holds a deleted row is rewritten, and so is every
/// one half as large again as its tier, unless a snapshot needs it; neither
/// its level nor its size keeps it from that.
pub proof fn law_dirty_and_oversized_segments_are_rewritten(
    segments: Seq<SegmentRecord>,
    loaded: Seq<SegmentVolume>,
    tombstones: Map<i64, u64>,
    boundary: Option<u64>,
    tier_target_rows: usize,
    i: int,
    at: int,
)
    requires
        0 <= i < segments.len() <= usize::MAX,
        is_loaded_at(loaded, segments[i].segment_id, at),
        !is_needed_by_snapshot(segments[i], loaded[at], tombstones, boundary),
        holds_deleted_row(loaded[at], tombstones) || 2 * segments[i].row_count > 3
            * tier_target_rows && 3 * tier_target_rows <= usize::MAX,
    ensures
        is_planned(
            candidates_of(
                segments,
                segments.len() as int,
                loaded,
                tombstones,
                boundary,
                tier_target_rows,
            ),
            i,
            true,
        ),
{
    lemma_candidates(
        segments,
        segments.len() as int,
        loaded,
        tombstones,
        boundary,
        tier_target_rows,
    );
    lemma_loaded_at(loaded, segments[i].segment_id);
    let out = candidates_of(
        segments,
        segments.len() as int,
        loaded,
        tombstones,
        boundary,
        tier_target_rows,
    );
    let c = candidate_of(i, segments[i], loaded, tombstones, boundary, tier_target_rows);
    assert(loaded_index(loaded, segments[i].segment_id) == Some(at));
    if let Some(found) = c {
        assert(out.contains(found));
        let k = choose|k: int| 0 <= k < out.len() && out[k] == found;
        assert(out[k].manifest_index == i);
    }
}

/// Fresh segments always merge, stable ones while they are below their tier.
/// A stable segment at its tier without deleted rows is left alone.
pub proof fn law_small_segments_merge(
    segments: Seq<SegmentRecord>,
    loaded: Seq<SegmentVolume>,
    tombstones: Map<i64, u64>,
    boundary: Option<u64>,
    tier_target_rows: usize,
    i: int,
    at: int,
)
    requires
        0 <= i < segments.len() <= usize::MAX,
        is_loaded_at(loaded, segments[i].segment_id, at),
        !is_needed_by_snapshot(segments[i], loaded[at], tombstones, boundary),
        !holds_deleted_row(loaded[at], tombstones),
        2 * segments[i].row_count <= 3 * tier_target_rows <= usize::MAX,
    ensures
        ({
            let out = candidates_of(
                segments,
                segments.len() as int,
                loaded,
                tombstones,
                boundary,
                tier_target_rows,
            );
            &&& segments[i].level != SegmentLevel::L1 ==> is_planned(out, i, false)
            &&& segments[i].row_count < tier_target_rows ==> is_planned(out, i, false)
            &&& segments[i].level == SegmentLevel::L1 && segments[i].row_count >= tier_target_rows
                ==> forall|k: int| 0 <= k < out.len() ==> (#[trigger] out[k]).manifest_index != i
        }),
{
    lemma_candidates(
        segments,
        segments.len() as int,
        loaded,
        tombstones,
        boundary,
        tier_target_rows,
    );
    lemma_loaded_at(loaded, segments[i].segment_id);
    let out = candidates_of(
        segments,
        segments.len() as int,
        loaded,
        tombstones,
        boundary,
        tier_target_rows,
    );
    assert(loaded_index(loaded, segments[i].segment_id) == Some(at));
    let c = candidate_of(i, segments[i], loaded, tombstones, boundary, tier_target_rows);
    if let Some(found) = c {
        assert(out.contains(found));
        let k = choose|k: int| 0 <= k < out.len() && out[k] == found;
        assert(out[k].manifest_index == i);
    }
}

/// What the planner takes is loaded and needed by no snapshot, in the order of
/// the manifest and none of it twice; its weight is that of its two artifacts.
pub proof fn law_no_snapshot_loses_a_segment(
    segments: Seq<SegmentRecord>,
    loaded: Seq<SegmentVolume>,
    tombstones: Map<i64, u64>,
    boundary: Option<u64>,
    tier_target_rows: usize,
    k: int,
)
    requires
        segments.len() <= usize::MAX,
        0 <= k < candidates_of(
            segments,
            segments.len() as int,
            loaded,
            tombstones,
            boundary,
            tier_target_rows,
        ).len(),
    ensures
        ({
            let out = candidates_of(
                segments,
                segments.len() as int,
                loaded,
                tombstones,
                boundary,
                tier_target_rows,
            );
            let i = out[k].manifest_index as int;
            &&& 0 <= i < segments.len()
            &&& k > 0 ==> out[k - 1].manifest_index < i
            &&& exists|at: int|
                #![trigger loaded[at]]
                {
                    &&& is_loaded_at(loaded, segments[i].segment_id, at)
                    &&& !is_needed_by_snapshot(segments[i], loaded[at], tombstones, boundary)
                    &&& out[k].physical_bytes == ({
                        let data = match loaded[at].data_bytes {
                            Some(n) => n as int,
                            None => 0,
                        };
                        let index = match loaded[at].index_bytes {
                            Some(n) => n as int,
                            None => 0,
                        };
                        if data + index > u64::MAX {
                            u64::MAX as int
                        } else {
                            data + index
                        }
                    })
                }
        }),
{
    lemma_candidates(
        segments,
        segments.len() as int,
        loaded,
        tombstones,
        boundary,
        tier_target_rows,
    );
    let out = candidates_of(
        segments,
        segments.len() as int,
        loaded,
        tombstones,
        boundary,
        tier_target_rows,
    );
    let i = out[k].manifest_index as int;
    lemma_loaded_at(loaded, segments[i].segment_id);
    let at = loaded_index(loaded, segments[i].segment_id)->Some_0;
    assert(is_loaded_at(loaded, segments[i].segment_id, at));
    assert(loaded[at] == loaded[at]);
}

/// A table with a segment asks for compaction when it has deleted rows or a
/// segment half as large again as its tier, or as many fresh neighbours as
/// the threshold says; a table of full, clean segments does not.
pub proof fn law_tables_with_work_ask_for_it(
    table: TableCompactionView,
    compact_threshold: usize,
    tier_target_rows: usize,
    start: int,
)
    requires
        compact_threshold >= 1,
        3 * tier_target_rows <= usize::MAX,
    ensures
        table.has_tombstones && table.segment_count >= 1 ==> needs_compaction(
            table,
            compact_threshold,
            tier_target_rows,
        ),
        2 * table.max_segment_row_count > 3 * tier_target_rows ==> needs_compaction(
            table,
            compact_threshold,
            tier_target_rows,
        ),
        0 <= start && start + compact_threshold <= table.segments@.len() && (forall|k: int|
            start <= k < start + compact_threshold ==> (#[trigger] table.segments@[k]).level
                != SegmentLevel::L1 || table.segments@[k].row_count < tier_target_rows)
            ==> needs_compaction(table, compact_threshold, tier_target_rows),
        !table.has_tombstones && 2 * table.max_segment_row_count <= 3 * tier_target_rows && (forall|
            k: int,
        |
            0 <= k < table.segments@.len() ==> (#[trigger] table.segments@[k]).level
                == SegmentLevel::L1 && table.segments@[k].row_count >= tier_target_rows)
            ==> !needs_compaction(table, compact_threshold, tier_target_rows),
{
    if 0 <= start && start + compact_threshold <= table.segments@.len() && (forall|k: int|
        start <= k < start + compact_threshold ==> (#[trigger] table.segments@[k]).level
            != SegmentLevel::L1 || table.segments@[k].row_count < tier_target_rows) {
        assert(mergeable_window(
            table.segments@,
            start,
            compact_threshold as int,
            tier_target_rows,
        ));
    }
    if !table.has_tombstones && 2 * table.max_segment_row_count <= 3 * tier_target_rows && (forall|
        k: int,
    |
        0 <= k < table.segments@.len() ==> (#[trigger] table.segments@[k]).level
            == SegmentLevel::L1 && table.segments@[k].row_count >= tier_target_rows) {
        if needs_compaction(table, compact_threshold, tier_target_rows) {
            let s = choose|s: int| #[trigger]
                mergeable_window(
                    table.segments@,
                    s,
                    compact_threshold as int,
                    tier_target_rows,
                );
            assert(table.segments@[s].level == SegmentLevel::L1);
        }
    }
}

proof fn lemma_longest_fit(
    candidates: Seq<CompactionCandidate>,
    from: int,
    to: int,
    max_segments: int,
    max_bytes: int,
) -> (end: int)
    requires
        run_fits(candidates, from, to, max_segments, max_bytes),
    ensures
        to <= end,
        run_fits(candidates, from, end, max_segments, max_bytes),
        !run_fits(candidates, from, end + 1, max_segments, max_bytes),
    decreases candidates.len() - to,
{
    if run_fits(candidates, from, to + 1, max_segments, max_bytes) {
        lemma_longest_fit(candidates, from, to + 1, max_segments, max_bytes)
    } else {
        to
    }
}

/// Work that fits a job is taken: where one candidate has to be rewritten, or
/// two neighbours can be merged, within the bounds, a run is selected. Every
/// selected run has such work.
pub proof fn law_work_that_fits_is_selected(
    candidates: Seq<CompactionCandidate>,
    max_segments: int,
    max_bytes: int,
    selected: Seq<usize>,
    k: int,
)
    requires
        is_selected_run(candidates, max_segments, max_bytes, selected),
        max_segments >= 1,
        0 <= k < candidates.len(),
    ensures
        candidates[k].must_rewrite && candidates[k].physical_bytes <= max_bytes ==> selected.len()
            > 0,
        k + 1 < candidates.len() && max_segments >= 2 && candidates[k + 1].manifest_index
            == candidates[k].manifest_index + 1 && candidates[k].physical_bytes + candidates[k
            + 1].physical_bytes <= max_bytes && candidates[k].physical_bytes + candidates[k
            + 1].physical_bytes <= u64::MAX ==> selected.len() > 0,
        selected.len() == 1 ==> exists|m: int|
            0 <= m < candidates.len() && (#[trigger] candidates[m]).must_rewrite
                && candidates[m].manifest_index == selected[0],
{
    reveal_with_fuel(run_bytes, 3);
    if candidates[k].must_rewrite && candidates[k].physical_bytes <= max_bytes {
        assert(run_bytes(candidates, k, k + 1) == candidates[k].physical_bytes);
        assert(run_fits(candidates, k, k + 1, max_segments, max_bytes));
        let end = lemma_longest_fit(candidates, k, k + 1, max_segments, max_bytes);
        assert(run_is_useful(candidates, k, end, max_segments, max_bytes));
    }
    if k + 1 < candidates.len() && max_segments >= 2 && candidates[k + 1].manifest_index
        == candidates[k].manifest_index + 1 && candidates[k].physical_bytes + candidates[k
        + 1].physical_bytes <= max_bytes && candidates[k].physical_bytes + candidates[k
        + 1].physical_bytes <= u64::MAX {
        assert(run_bytes(candidates, k, k + 2) == candidates[k].physical_bytes + candidates[k
            + 1].physical_bytes);
        assert(run_fits(candidates, k, k + 2, max_segments, max_bytes));
        let end = lemma_longest_fit(candidates, k, k + 2, max_segments, max_bytes);
        assert(run_is_useful(candidates, k, end, max_segments, max_bytes));
    }
    if selected.len() == 1 {
        let (from, to) = choose|from: int, to: int| #[trigger]
            run_is_useful(candidates, from, to, max_segments, max_bytes) && selected
                == super::plan::run_indices(candidates, from, to) && forall|
                earlier: int,
                end: int,
            |
                earlier < from ==> !#[trigger] run_is_useful(
                    candidates,
                    earlier,
                    end,
                    max_segments,
                    max_bytes,
                );
        assert(to == from + 1);
        let m = choose|m: int| from <= m < to && (#[trigger] candidates[m]).must_rewrite;
        assert(selected[0] == candidates[from + 0].manifest_index);
    }
}

/// The row is in one of the volumes.
pub open spec fn is_in(volumes: Seq<SegmentVolume>, row_id: i64) -> bool {
    exists|v: int, i: int|
        0 <= v < volumes.len() && 0 <= i < volumes[v].row_ids@.len()
            && #[trigger] volumes[v].row_ids@[i] == row_id
}

/// A tombstone deletes the row for every reader.
pub open spec fn is_gone(tombstones: Map<i64, u64>, boundary: Option<u64>, row_id: i64) -> bool {
    tombstones.dom().contains(row_id) && (boundary matches Some(limit) ==> tombstones[row_id]
        < limit)
}

/// A merge keeps exactly the rows of its inputs that are not deleted for every
/// reader, and of each the copy of the newest input, the first one listed.
pub proof fn law_merge_keeps_the_newest_copy(
    volumes: Seq<SegmentVolume>,
    tombstones: Map<i64, u64>,
    boundary: Option<u64>,
    merged: Seq<CompactionRowRef>,
    row_id: i64,
)
    requires
        is_merge_of(id_streams(volumes), tombstones, boundary, merged),
    ensures
        (exists|a: int| 0 <= a < merged.len() && (#[trigger] merged[a]).row_id == row_id) <==> (
        is_in(volumes, row_id) && !is_gone(tombstones, boundary, row_id)),
        forall|a: int|
            0 <= a < merged.len() && (#[trigger] merged[a]).row_id == row_id ==> {
                let v = merged[a].volume as int;
                let i = merged[a].row as int;
                &&& v < volumes.len()
                &&& i < volumes[v].row_ids@.len()
                &&& volumes[v].row_ids@[i] == row_id
                &&& !is_in(volumes.take(v), row_id)
            },
{
    let streams = id_streams(volumes);
    assert forall|v: int, i: int|
        0 <= v < volumes.len() && 0 <= i < volumes[v].row_ids@.len()
            && #[trigger] volumes[v].row_ids@[i] == row_id implies holds(streams, v, i, row_id) by {
        assert(streams[v] == volumes[v].row_ids@);
    }
    assert forall|a: int| 0 <= a < merged.len() && (#[trigger] merged[a]).row_id == row_id implies {
        let v = merged[a].volume as int;
        let i = merged[a].row as int;
        &&& v < volumes.len()
        &&& i < volumes[v].row_ids@.len()
        &&& volumes[v].row_ids@[i] == row_id
        &&& !is_in(volumes.take(v), row_id)
    } by {
        let v = merged[a].volume as int;
        let i = merged[a].row as int;
        assert(holds(streams, v, i, row_id));
        assert(streams[v] == volumes[v].row_ids@);
        if is_in(volumes.take(v), row_id) {
            let newer = volumes.take(v);
            let (w, j) = choose|w: int, j: int|
                0 <= w < newer.len() && 0 <= j < newer[w].row_ids@.len()
                    && #[trigger] newer[w].row_ids@[j] == row_id;
            assert(newer[w] == volumes[w]);
            assert(volumes[w].row_ids@[j] == row_id);
            assert(holds(streams, w, j, row_id));
        }
    }
    if is_in(volumes, row_id) && !is_gone(tombstones, boundary, row_id) {
        let (v, i) = choose|v: int, i: int|
            0 <= v < volumes.len() && 0 <= i < volumes[v].row_ids@.len()
                && #[trigger] volumes[v].row_ids@[i] == row_id;
        assert(holds(streams, v, i, row_id));
    }
    if exists|a: int| 0 <= a < merged.len() && (#[trigger] merged[a]).row_id == row_id {
        let a = choose|a: int| 0 <= a < merged.len() && (#[trigger] merged[a]).row_id == row_id;
        let v = merged[a].volume as int;
        let i = merged[a].row as int;
        assert(volumes[v].row_ids@[i] == row_id);
    }
}

/// Selected volumes are published as they were read.
pub open spec fn is_published_selection(
    selected: Seq<SegmentVolume>,
    current: Seq<SegmentVolume>,
) -> bool {
    &&& forall|v: int|
        0 <= v < selected.len() ==> exists|c: int|
            0 <= c < current.len() && (#[trigger] current[c]).segment_id == (
            #[trigger] selected[v]).segment_id
    &&& forall|v: int, c: int|
        0 <= v < selected.len() && 0 <= c < current.len() && (#[trigger] selected[v]).segment_id
            == (#[trigger] current[c]).segment_id ==> selected[v].row_ids@ == current[c].row_ids@
}

/// A volume that stays published holds the row.
pub open spec fn stays_in(
    selected: Seq<SegmentVolume>,
    current: Seq<SegmentVolume>,
    row_id: i64,
) -> bool {
    exists|c: int, i: int|
        {
            &&& 0 <= c < current.len()
            &&& 0 <= i < current[c].row_ids@.len()
            &&& #[trigger] current[c].row_ids@[i] == row_id
            &&& forall|v: int|
                0 <= v < selected.len() ==> (#[trigger] selected[v]).segment_id
                    != current[c].segment_id
        }
}

/// A compaction changes no answer: the rows that are live in the published
/// volumes are those that are live in the merged output and the volumes that
/// stay, under the tombstones that are published with it. Deletions that came
/// after the plan count on both sides.
pub proof fn law_compaction_changes_no_answer(
    snapshot: Map<i64, u64>,
    tombstones: Map<i64, u64>,
    boundary: Option<u64>,
    selected: Seq<SegmentVolume>,
    current: Seq<SegmentVolume>,
    merged: Seq<CompactionRowRef>,
    retired: Set<i64>,
    row_id: i64,
)
    requires
        is_published_selection(selected, current),
        is_merge_of(id_streams(selected), snapshot, boundary, merged),
        forall|id: i64| #[trigger]
            retired.contains(id) <==> is_fully_retired(snapshot, boundary, selected, current, id),
        snapshot.dom().contains(row_id) ==> tombstones.dom().contains(row_id),
    ensures
        ({
            let after = surviving_tombstones(tombstones, snapshot, boundary, retired);
            let merges = exists|a: int|
                0 <= a < merged.len() && (#[trigger] merged[a]).row_id == row_id;
            &&& (is_in(current, row_id) && !tombstones.dom().contains(row_id)) <==> ((merges
                || stays_in(selected, current, row_id)) && !after.dom().contains(row_id))
            &&& after.dom().contains(row_id) ==> tombstones.dom().contains(row_id)
                && after[row_id] == tombstones[row_id]
        }),
{
    law_merge_keeps_the_newest_copy(selected, snapshot, boundary, merged, row_id);
    let after = surviving_tombstones(tombstones, snapshot, boundary, retired);
    let merges = exists|a: int| 0 <= a < merged.len() && (#[trigger] merged[a]).row_id == row_id;
    lemma_rows_split(selected, current, row_id);
    if tombstones.dom().contains(row_id) && !after.dom().contains(row_id) {
        assert(retired.contains(row_id));
        assert(is_gone(snapshot, boundary, row_id));
        if stays_in(selected, current, row_id) {
            let (c, i) = choose|c: int, i: int|
                {
                    &&& 0 <= c < current.len()
                    &&& 0 <= i < current[c].row_ids@.len()
                    &&& #[trigger] current[c].row_ids@[i] == row_id
                    &&& forall|v: int|
                        0 <= v < selected.len() ==> (#[trigger] selected[v]).segment_id
                            != current[c].segment_id
                };
            assert(current[c].row_ids@.contains(row_id));
            assert(super::tombstones::retained_elsewhere(selected, current, row_id));
        }
    }
}

proof fn lemma_rows_split(
    selected: Seq<SegmentVolume>,
    current: Seq<SegmentVolume>,
    row_id: i64,
)
    requires
        is_published_selection(selected, current),
    ensures
        is_in(current, row_id) <==> is_in(selected, row_id) || stays_in(selected, current, row_id),
{
    if is_in(current, row_id) && !stays_in(selected, current, row_id) {
        let (c, i) = choose|c: int, i: int|
            0 <= c < current.len() && 0 <= i < current[c].row_ids@.len()
                && #[trigger] current[c].row_ids@[i] == row_id;
        let v = choose|v: int|
            0 <= v < selected.len() && (#[trigger] selected[v]).segment_id
                == current[c].segment_id;
        assert(selected[v].row_ids@ == current[c].row_ids@);
        assert(selected[v].row_ids@[i] == row_id);
    }
    if is_in(selected, row_id) {
        let (v, i) = choose|v: int, i: int|
            0 <= v < selected.len() && 0 <= i < selected[v].row_ids@.len()
                && #[trigger] selected[v].row_ids@[i] == row_id;
        let c = choose|c: int|
            0 <= c < current.len() && (#[trigger] current[c]).segment_id
                == selected[v].segment_id;
        assert(selected[v].row_ids@ == current[c].row_ids@);
        assert(current[c].row_ids@[i] == row_id);
    }
}

/// Deleted rows are given up for good: a tombstone that the plan saw and every
/// reader sees goes once all published copies of its row are rewritten.
pub proof fn law_rewritten_deletions_are_forgotten(
    snapshot: Map<i64, u64>,
    tombstones: Map<i64, u64>,
    boundary: Option<u64>,
    selected: Seq<SegmentVolume>,
    current: Seq<SegmentVolume>,
    retired: Set<i64>,
    row_id: i64,
)
    requires
        is_published_selection(selected, current),
        forall|id: i64| #[trigger]
            retired.contains(id) <==> is_fully_retired(snapshot, boundary, selected, current, id),
        is_in(selected, row_id),
        !stays_in(selected, current, row_id),
        is_gone(snapshot, boundary, row_id),
        tombstones.dom().contains(row_id),
        tombstones[row_id] == snapshot[row_id],
    ensures
        !surviving_tombstones(tombstones, snapshot, boundary, retired).dom().contains(row_id),
{
    let (v, i) = choose|v: int, i: int|
        0 <= v < selected.len() && 0 <= i < selected[v].row_ids@.len()
            && #[trigger] selected[v].row_ids@[i] == row_id;
    assert(selected[v].row_ids@.contains(row_id));
    assert(super::tombstones::volume_holds(selected[v], row_id));
    assert forall|w: int| 0 <= w < selected.len() implies loaded_index(
        current,
        (#[trigger] selected[w]).segment_id,
    ) is Some by {
        lemma_loaded_at(current, selected[w].segment_id);
    }
    if super::tombstones::retained_elsewhere(selected, current, row_id) {
        let c = choose|c: int|
            0 <= c < current.len() && !super::tombstones::is_selected(
                selected,
                (#[trigger] current[c]).segment_id,
            ) && super::tombstones::volume_holds(current[c], row_id);
        let j = choose|j: int| 0 <= j < current[c].row_ids@.len() && current[c].row_ids@[j] == row_id;
        assert(current[c].row_ids@[j] == row_id);
    }
    assert(retired.contains(row_id));
}

} // verus!
