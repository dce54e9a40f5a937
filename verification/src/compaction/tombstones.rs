//! Which tombstones a compaction resolves.
use crate::compaction::merge::is_suppressed;
use crate::compaction::merge::suppressed;
use crate::compaction::plan::find_loaded;
use crate::compaction::plan::loaded_index;
use crate::compaction::plan::resolvable;
use crate::compaction::plan::strictly_ascending;
use crate::compaction::plan::SegmentVolume;
use crate::fx::enumerates;
use crate::fx::row_set;
use crate::fx::row_set_contains;
use crate::fx::row_set_insert;
use crate::fx::tombstone_entries;
use crate::fx::tombstone_get;
use crate::fx::tombstone_insert;
use crate::fx::tombstone_map;
use rustc_hash::FxHashMap;
use rustc_hash::FxHashSet;
use vstd::prelude::*;

verus! {

pub open spec fn volume_holds(volume: SegmentVolume, row_id: i64) -> bool {
    volume.row_ids@.contains(row_id)
}

pub open spec fn any_holds(volumes: Seq<SegmentVolume>, row_id: i64) -> bool {
    exists|v: int| 0 <= v < volumes.len() && volume_holds(#[trigger] volumes[v], row_id)
}

pub open spec fn is_selected(selected: Seq<SegmentVolume>, segment_id: u64) -> bool {
    exists|v: int| 0 <= v < selected.len() && (#[trigger] selected[v]).segment_id == segment_id
}

/// A currently published segment outside the selection still holds the row.
pub open spec fn retained_elsewhere(
    selected: Seq<SegmentVolume>,
    current: Seq<SegmentVolume>,
    row_id: i64,
) -> bool {
    exists|c: int|
        0 <= c < current.len() && !is_selected(selected, (#[trigger] current[c]).segment_id)
            && volume_holds(current[c], row_id)
}

/// Every selected segment is still published.
pub open spec fn selection_is_current(
    selected: Seq<SegmentVolume>,
    current: Seq<SegmentVolume>,
) -> bool {
    forall|v: int|
        0 <= v < selected.len() ==> loaded_index(current, (#[trigger] selected[v]).segment_id)
            is Some
}

/// A tombstone is fully retired when the selection holds the row, no snapshot
/// needs it, and no segment outside the selection holds a copy.
pub open spec fn is_fully_retired(
    tombstones: Map<i64, u64>,
    boundary: Option<u64>,
    selected: Seq<SegmentVolume>,
    current: Seq<SegmentVolume>,
    row_id: i64,
) -> bool {
    &&& selection_is_current(selected, current)
    &&& any_holds(selected, row_id)
    &&& suppressed(tombstones, boundary, row_id)
    &&& !retained_elsewhere(selected, current, row_id)
}

fn selection_contains(selected: &Vec<SegmentVolume>, segment_id: u64) -> (r: bool)
    ensures
        r == is_selected(selected@, segment_id),
{
    let mut v: usize = 0;
    while v < selected.len()
        invariant
            0 <= v <= selected@.len(),
            forall|w: int| 0 <= w < v ==> (#[trigger] selected@[w]).segment_id != segment_id,
        decreases selected@.len() - v,
    {
        if selected[v].segment_id == segment_id {
            return true;
        }
        v = v + 1;
    }
    false
}

fn selection_published(selected: &Vec<SegmentVolume>, current: &Vec<SegmentVolume>) -> (r: bool)
    ensures
        r == selection_is_current(selected@, current@),
{
    let mut v: usize = 0;
    while v < selected.len()
        invariant
            0 <= v <= selected@.len(),
            forall|w: int|
                0 <= w < v ==> loaded_index(current@, (#[trigger] selected@[w]).segment_id)
                    is Some,
        decreases selected@.len() - v,
    {
        if find_loaded(current, selected[v].segment_id).is_none() {
            assert(loaded_index(current@, selected@[v as int].segment_id) is None);
            return false;
        }
        v = v + 1;
    }
    true
}

/// Binary search in ascending row identities.
pub fn holds_row(row_ids: &Vec<i64>, row_id: i64) -> (r: bool)
    requires
        strictly_ascending(row_ids@),
    ensures
        r == row_ids@.contains(row_id),
{
    let mut low: usize = 0;
    let mut high: usize = row_ids.len();
    while low < high
        invariant
            0 <= low <= high <= row_ids@.len(),
            strictly_ascending(row_ids@),
            forall|i: int| 0 <= i < low ==> row_ids@[i] < row_id,
            forall|i: int| high <= i < row_ids@.len() ==> row_ids@[i] > row_id,
        decreases high - low,
    {
        let middle: usize = low + (high - low) / 2;
        let at: i64 = row_ids[middle];
        if at == row_id {
            assert(row_ids@[middle as int] == row_id);
            return true;
        }
        if at < row_id {
            low = middle + 1;
        } else {
            high = middle;
        }
    }
    false
}

fn is_retained_elsewhere(
    selected: &Vec<SegmentVolume>,
    current: &Vec<SegmentVolume>,
    row_id: i64,
) -> (r: bool)
    requires
        forall|c: int| 0 <= c < current@.len() ==> (#[trigger] current@[c]).wf(),
    ensures
        r == retained_elsewhere(selected@, current@, row_id),
{
    let mut c: usize = 0;
    while c < current.len()
        invariant
            0 <= c <= current@.len(),
            forall|d: int| 0 <= d < current@.len() ==> (#[trigger] current@[d]).wf(),
            forall|d: int|
                0 <= d < c ==> is_selected(selected@, (#[trigger] current@[d]).segment_id)
                    || !volume_holds(current@[d], row_id),
        decreases current@.len() - c,
    {
        assert(current@[c as int].wf());
        if holds_row(&current[c].row_ids, row_id) && !selection_contains(
            selected,
            current[c].segment_id,
        ) {
            return true;
        }
        c = c + 1;
    }
    false
}

/// Snapshot tombstones whose every published row copy is in the selection.
///
/// One row identity may occur in several segments while visibility selects
/// the newest copy. Clearing its tombstone after retiring only one of them
/// would expose a predecessor, so such rows stay tombstoned. Nothing is
/// resolved when a selected segment is no longer published.
pub fn fully_retired_tombstone_rows(
    tombstone_snapshot: &FxHashMap<i64, u64>,
    snapshot_boundary: Option<u64>,
    selected_volumes: &Vec<SegmentVolume>,
    current_segments: &Vec<SegmentVolume>,
) -> (retired: FxHashSet<i64>)
    requires
        forall|c: int|
            0 <= c < current_segments@.len() ==> (#[trigger] current_segments@[c]).wf(),
    ensures
        forall|row_id: i64| #[trigger]
            retired@.contains(row_id) <==> is_fully_retired(
                tombstone_snapshot@,
                snapshot_boundary,
                selected_volumes@,
                current_segments@,
                row_id,
            ),
{
    let mut retired: FxHashSet<i64> = row_set();
    if !selection_published(selected_volumes, current_segments) {
        return retired;
    }
    let ghost ts = tombstone_snapshot@;
    let ghost sel = selected_volumes@;
    let ghost cur = current_segments@;
    let mut v: usize = 0;
    while v < selected_volumes.len()
        invariant
            ts == tombstone_snapshot@,
            sel == selected_volumes@,
            cur == current_segments@,
            0 <= v <= sel.len(),
            selection_is_current(sel, cur),
            forall|c: int| 0 <= c < cur.len() ==> (#[trigger] cur[c]).wf(),
            forall|row_id: i64| #[trigger]
                retired@.contains(row_id) ==> is_fully_retired(
                    ts,
                    snapshot_boundary,
                    sel,
                    cur,
                    row_id,
                ),
            forall|w: int, row_id: i64|
                0 <= w < v && volume_holds(#[trigger] sel[w], row_id) && is_fully_retired(
                    ts,
                    snapshot_boundary,
                    sel,
                    cur,
                    row_id,
                ) ==> #[trigger] retired@.contains(row_id),
        decreases sel.len() - v,
    {
        let row_ids: &Vec<i64> = &selected_volumes[v].row_ids;
        let mut i: usize = 0;
        while i < row_ids.len()
            invariant
                ts == tombstone_snapshot@,
                sel == selected_volumes@,
                cur == current_segments@,
                0 <= v < sel.len(),
                row_ids@ == sel[v as int].row_ids@,
                0 <= i <= row_ids@.len(),
                selection_is_current(sel, cur),
                forall|c: int| 0 <= c < cur.len() ==> (#[trigger] cur[c]).wf(),
                forall|row_id: i64| #[trigger]
                    retired@.contains(row_id) ==> is_fully_retired(
                        ts,
                        snapshot_boundary,
                        sel,
                        cur,
                        row_id,
                    ),
                forall|w: int, row_id: i64|
                    0 <= w < v && volume_holds(#[trigger] sel[w], row_id) && is_fully_retired(
                        ts,
                        snapshot_boundary,
                        sel,
                        cur,
                        row_id,
                    ) ==> #[trigger] retired@.contains(row_id),
                forall|j: int|
                    0 <= j < i && is_fully_retired(
                        ts,
                        snapshot_boundary,
                        sel,
                        cur,
                        #[trigger] row_ids@[j],
                    ) ==> retired@.contains(row_ids@[j]),
            decreases row_ids@.len() - i,
        {
            let row_id: i64 = row_ids[i];
            assert(volume_holds(sel[v as int], row_id));
            if is_suppressed(tombstone_snapshot, snapshot_boundary, row_id)
                && !is_retained_elsewhere(selected_volumes, current_segments, row_id) {
                row_set_insert(&mut retired, row_id);
            }
            i = i + 1;
        }
        assert forall|w: int, row_id: i64|
            0 <= w < v + 1 && volume_holds(#[trigger] sel[w], row_id) && is_fully_retired(
                ts,
                snapshot_boundary,
                sel,
                cur,
                row_id,
            ) implies #[trigger] retired@.contains(row_id) by {
            if w == v {
                let j = choose|j: int| 0 <= j < row_ids@.len() && row_ids@[j] == row_id;
                assert(retired@.contains(row_ids@[j]));
            }
        }
        v = v + 1;
    }
    assert forall|row_id: i64|
        is_fully_retired(ts, snapshot_boundary, sel, cur, row_id) implies #[trigger]
    retired@.contains(row_id) by {
        let w = choose|w: int| 0 <= w < sel.len() && volume_holds(#[trigger] sel[w], row_id);
        assert(volume_holds(sel[w], row_id));
    }
    retired
}

/// Clearing a retired tombstone cannot bring a deleted row back: no segment
/// that stays published holds a copy of the row.
pub proof fn law_retired_row_cannot_resurface(
    tombstones: Map<i64, u64>,
    boundary: Option<u64>,
    selected: Seq<SegmentVolume>,
    current: Seq<SegmentVolume>,
    row_id: i64,
    c: int,
)
    requires
        is_fully_retired(tombstones, boundary, selected, current, row_id),
        0 <= c < current.len(),
        volume_holds(current[c], row_id),
    ensures
        is_selected(selected, current[c].segment_id),
{
}

/// The binding is gone after the compaction: the planned snapshot had exactly
/// it, every reader sees it, and the row is retired.
pub open spec fn tombstone_is_resolved(
    snapshot: Map<i64, u64>,
    boundary: Option<u64>,
    resolved: Set<i64>,
    row_id: i64,
    commit_seq: u64,
) -> bool {
    &&& snapshot.dom().contains(row_id)
    &&& snapshot[row_id] == commit_seq
    &&& resolvable(commit_seq, boundary)
    &&& resolved.contains(row_id)
}

pub open spec fn surviving_tombstones(
    current: Map<i64, u64>,
    snapshot: Map<i64, u64>,
    boundary: Option<u64>,
    resolved: Set<i64>,
) -> Map<i64, u64> {
    current.restrict(
        Set::new(
            |row_id: i64|
                current.dom().contains(row_id) && !tombstone_is_resolved(
                    snapshot,
                    boundary,
                    resolved,
                    row_id,
                    current[row_id],
                ),
        ),
    )
}

/// Tombstones to publish together with the replacement segments. The flag
/// tells whether any was dropped.
pub fn post_compaction_tombstones(
    current: &FxHashMap<i64, u64>,
    snapshot: &FxHashMap<i64, u64>,
    boundary: Option<u64>,
    resolved: &FxHashSet<i64>,
) -> (r: (FxHashMap<i64, u64>, bool))
    ensures
        r.0@ == surviving_tombstones(current@, snapshot@, boundary, resolved@),
        r.1 == (r.0@ != current@),
{
    let entries: Vec<(i64, u64)> = tombstone_entries(current);
    let ghost target = surviving_tombstones(current@, snapshot@, boundary, resolved@);
    let mut kept: FxHashMap<i64, u64> = tombstone_map();
    let mut changed: bool = false;
    let mut i: usize = 0;
    while i < entries.len()
        invariant
            enumerates(entries@, current@),
            target == surviving_tombstones(current@, snapshot@, boundary, resolved@),
            0 <= i <= entries@.len(),
            forall|row_id: i64| #[trigger]
                kept@.dom().contains(row_id) <==> target.dom().contains(row_id) && exists|j: int|
                    0 <= j < i && (#[trigger] entries@[j]).0 == row_id,
            forall|row_id: i64| #[trigger]
                kept@.dom().contains(row_id) ==> kept@[row_id] == current@[row_id],
            changed == exists|j: int|
                0 <= j < i && !target.dom().contains((#[trigger] entries@[j]).0),
        decreases entries@.len() - i,
    {
        let (row_id, commit_seq) = entries[i];
        let ghost before = kept@;
        let in_snapshot: bool = match tombstone_get(snapshot, row_id) {
            Some(seq) => seq == commit_seq,
            None => false,
        };
        let old_enough: bool = match boundary {
            Some(limit) => commit_seq < limit,
            None => true,
        };
        let resolved_now: bool = in_snapshot && old_enough && row_set_contains(resolved, row_id);
        assert(entries@[i as int] == (row_id, commit_seq));
        assert(current@.dom().contains(row_id) && current@[row_id] == commit_seq);
        assert(target.dom().contains(row_id) == !resolved_now);
        if resolved_now {
            changed = true;
        } else {
            tombstone_insert(&mut kept, row_id, commit_seq);
        }
        assert forall|k: i64| #[trigger]
            kept@.dom().contains(k) <==> target.dom().contains(k) && exists|j: int|
                0 <= j < i + 1 && (#[trigger] entries@[j]).0 == k by {
            if before.dom().contains(k) {
                let j = choose|j: int| 0 <= j < i && (#[trigger] entries@[j]).0 == k;
                assert(entries@[j].0 == k);
            }
            if k == row_id {
                assert(entries@[i as int].0 == k);
            }
        }
        i = i + 1;
    }
    proof {
        assert forall|k: i64| kept@.dom().contains(k) <==> target.dom().contains(k) by {
            if target.dom().contains(k) {
                assert(current@.dom().contains(k));
                let j = choose|j: int| 0 <= j < entries@.len() && (#[trigger] entries@[j]).0 == k;
                assert(entries@[j].0 == k);
            }
        }
        assert(kept@ =~= target);
        if changed {
            let j = choose|j: int|
                0 <= j < entries@.len() && !target.dom().contains((#[trigger] entries@[j]).0);
            assert(current@.dom().contains(entries@[j].0));
        } else {
            assert forall|k: i64| current@.dom().contains(k) implies target.dom().contains(k) by {
                let j = choose|j: int| 0 <= j < entries@.len() && (#[trigger] entries@[j]).0 == k;
                assert(entries@[j].0 == k);
            }
            assert(target =~= current@);
        }
    }
    (kept, changed)
}

/// A tombstone that was added or changed after planning is never dropped.
pub proof fn law_later_tombstones_survive(
    current: Map<i64, u64>,
    snapshot: Map<i64, u64>,
    boundary: Option<u64>,
    resolved: Set<i64>,
    row_id: i64,
)
    requires
        current.dom().contains(row_id),
        !snapshot.dom().contains(row_id) || snapshot[row_id] != current[row_id],
    ensures
        surviving_tombstones(current, snapshot, boundary, resolved).dom().contains(row_id),
        surviving_tombstones(current, snapshot, boundary, resolved)[row_id] == current[row_id],
{
}

} // verus!
