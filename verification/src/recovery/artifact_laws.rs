//! What reading a generation back is for.
use super::artifacts::first_duplicate;
use super::artifacts::high_water;
use super::artifacts::last_row_mark;
use super::artifacts::owner_position;
use super::artifacts::recencies;
use super::artifacts::segment_refusal;
use super::artifacts::transaction_frontier;
use super::artifacts::visibility_frontier;
use super::artifacts::with_deleted;
use super::artifacts::OpenedData;
use super::artifacts::RecoveredSegment;
use super::artifacts::SegmentKind;
use crate::sort::is_order;
use vstd::prelude::*;

verus! {

/// Of two segments the one that comes later holds the newer transactions; among
/// equals it was written by the later generation.
pub proof fn law_newer_segments_come_later(
    segments: Seq<RecoveredSegment>,
    order: Seq<usize>,
    a: int,
    b: int,
)
    requires
        is_order(recencies(segments), order),
        0 <= a < b < order.len(),
    ensures
        order.len() == segments.len(),
        order[a] != order[b],
        ({
            let x = segments[order[a] as int];
            let y = segments[order[b] as int];
            &&& x.max_transaction_id <= y.max_transaction_id
            &&& x.max_transaction_id == y.max_transaction_id ==> x.min_transaction_id
                <= y.min_transaction_id
            &&& x.max_transaction_id == y.max_transaction_id && x.min_transaction_id
                == y.min_transaction_id ==> x.creation_generation <= y.creation_generation
            &&& x.max_transaction_id == y.max_transaction_id && x.min_transaction_id
                == y.min_transaction_id && x.creation_generation == y.creation_generation ==> x.id
                <= y.id
        }),
{
    assert(crate::sort::SortKey::leq(
        recencies(segments)[order[a] as int],
        recencies(segments)[order[b] as int],
    ));
}

proof fn lemma_with_deleted(map: Map<i64, u64>, rows: Seq<i64>, seq: u64, i: int, row_id: i64)
    requires
        0 <= i <= rows.len(),
    ensures
        ({
            let out = with_deleted(map, rows, seq, i);
            let listed = exists|k: int| i <= k < rows.len() && #[trigger] rows[k] == row_id;
            &&& out.dom().contains(row_id) <==> listed || map.dom().contains(row_id)
            &&& listed ==> out[row_id] == seq
            &&& !listed && map.dom().contains(row_id) ==> out[row_id] == map[row_id]
        }),
    decreases rows.len() - i,
{
    if i < rows.len() {
        lemma_with_deleted(map.insert(rows[i], seq), rows, seq, i + 1, row_id);
        if rows[i] == row_id {
            assert(rows[i] == row_id);
        }
    }
}

/// A tombstone segment deletes its rows, each as of the segment's newest
/// commit, and no other; what was deleted before stays so.
pub proof fn law_tombstone_segment_deletes_its_rows(
    before: Map<i64, u64>,
    rows: Seq<i64>,
    seq: u64,
    row_id: i64,
)
    ensures
        ({
            let after = with_deleted(before, rows, seq, 0);
            &&& after.dom().contains(row_id) <==> rows.contains(row_id) || before.dom().contains(
                row_id,
            )
            &&& rows.contains(row_id) ==> after[row_id] == seq
            &&& !rows.contains(row_id) && before.dom().contains(row_id) ==> after[row_id]
                == before[row_id]
        }),
{
    lemma_with_deleted(before, rows, seq, 0, row_id);
    if rows.contains(row_id) {
        let k = choose|k: int| 0 <= k < rows.len() && rows[k] == row_id;
        assert(rows[k] == row_id);
    }
}

proof fn lemma_duplicate(known: Set<i64>, rows: Seq<i64>, i: int)
    requires
        0 <= i <= rows.len(),
    ensures
        first_duplicate(known, rows, i) is None <==> {
            &&& forall|k: int| i <= k < rows.len() ==> !known.contains(#[trigger] rows[k])
            &&& forall|a: int, b: int|
                i <= a < b < rows.len() ==> #[trigger] rows[a] != #[trigger] rows[b]
        },
    decreases rows.len() - i,
{
    if i < rows.len() && !known.contains(rows[i]) {
        let next = known.insert(rows[i]);
        lemma_duplicate(next, rows, i + 1);
        if first_duplicate(next, rows, i + 1) is None {
            assert forall|k: int| i <= k < rows.len() implies !known.contains(
                #[trigger] rows[k],
            ) by {
                if k > i {
                    assert(!next.contains(rows[k]));
                }
            }
            assert forall|a: int, b: int| i <= a < b < rows.len() implies #[trigger] rows[a]
                != #[trigger] rows[b] by {
                if a == i {
                    assert(!next.contains(rows[b]));
                }
            }
        } else if forall|a: int, b: int|
            i <= a < b < rows.len() ==> #[trigger] rows[a] != #[trigger] rows[b] {
            if forall|k: int| i <= k < rows.len() ==> !known.contains(#[trigger] rows[k]) {
                assert forall|k: int| i + 1 <= k < rows.len() implies !next.contains(
                    #[trigger] rows[k],
                ) by {
                    assert(rows[i] != rows[k]);
                }
            }
        }
    } else if i < rows.len() {
        assert(known.contains(rows[i]));
    }
}

/// A segment is taken in exactly where it is of the kind that the manifest
/// says, and, where it holds tombstones, has neither columns nor an index and
/// deletes no row a second time.
pub proof fn law_sound_segment_is_taken_in(
    table: Seq<char>,
    segment: RecoveredSegment,
    opened: OpenedData,
    tombstones: Map<i64, u64>,
)
    ensures
        segment_refusal(table, segment, opened, tombstones) is None <==> {
            &&& opened.kind == segment.kind
            &&& segment.kind == SegmentKind::Tombstones ==> {
                &&& !segment.has_index
                &&& opened.column_count == 0
                &&& forall|k: int|
                    0 <= k < opened.row_ids@.len() ==> !tombstones.dom().contains(
                        #[trigger] opened.row_ids@[k],
                    )
                &&& forall|a: int, b: int|
                    0 <= a < b < opened.row_ids@.len() ==> #[trigger] opened.row_ids@[a]
                        != #[trigger] opened.row_ids@[b]
            }
        },
{
    lemma_duplicate(tombstones.dom(), opened.row_ids@, 0);
}

proof fn lemma_high_water_is_met(segments: Seq<RecoveredSegment>, kind: SegmentKind, n: int)
    requires
        0 <= n <= segments.len(),
    ensures
        0 <= high_water(segments, kind, n),
        high_water(segments, kind, n) == 0 || exists|k: int|
            0 <= k < n && (#[trigger] segments[k]).kind == kind && segments[k].max_transaction_id
                == high_water(segments, kind, n),
    decreases n,
{
    if n > 0 {
        lemma_high_water_is_met(segments, kind, n - 1);
        let before = high_water(segments, kind, n - 1);
        if before > 0 {
            let k = choose|k: int|
                0 <= k < n - 1 && (#[trigger] segments[k]).kind == kind
                    && segments[k].max_transaction_id == before;
            assert(segments[k].kind == kind);
        }
        assert(segments[n - 1] == segments[n - 1]);
    }
}

/// The recovered frontiers are no higher than they have to be: the transaction
/// frontier is the recorded one or that of a row segment, the visibility
/// frontier that or the one of a tombstone segment.
pub proof fn law_frontiers_are_met(recorded: u64, segments: Seq<RecoveredSegment>)
    ensures
        ({
            let f = transaction_frontier(recorded, segments);
            f == recorded || exists|k: int|
                0 <= k < segments.len() && (#[trigger] segments[k]).kind == SegmentKind::Rows
                    && segments[k].max_transaction_id == f
        }),
        ({
            let f = visibility_frontier(recorded, segments);
            f == transaction_frontier(recorded, segments) || exists|k: int|
                0 <= k < segments.len() && (#[trigger] segments[k]).kind
                    == SegmentKind::Tombstones && segments[k].max_transaction_id == f
        }),
{
    lemma_high_water_is_met(segments, SegmentKind::Rows, segments.len() as int);
    lemma_high_water_is_met(segments, SegmentKind::Tombstones, segments.len() as int);
}

proof fn lemma_last_row_mark(last_ids: Seq<Option<i64>>, n: int)
    requires
        0 <= n <= last_ids.len(),
    ensures
        0 <= last_row_mark(last_ids, n),
        forall|k: int|
            0 <= k < n && (#[trigger] last_ids[k]) is Some ==> last_ids[k]->Some_0
                <= last_row_mark(last_ids, n),
        last_row_mark(last_ids, n) == 0 || exists|k: int|
            0 <= k < n && (#[trigger] last_ids[k]) is Some && last_ids[k]->Some_0
                == last_row_mark(last_ids, n),
    decreases n,
{
    if n > 0 {
        lemma_last_row_mark(last_ids, n - 1);
        let before = last_row_mark(last_ids, n - 1);
        if before > 0 {
            let k = choose|k: int|
                0 <= k < n - 1 && (#[trigger] last_ids[k]) is Some && last_ids[k]->Some_0
                    == before;
            assert(last_ids[k] is Some);
        }
        assert(last_ids[n - 1] == last_ids[n - 1]);
    }
}

/// A table's counter goes on behind the last row of every volume, and no
/// further.
pub proof fn law_counter_goes_on_behind_every_row(last_ids: Seq<Option<i64>>, k: int)
    requires
        0 <= k < last_ids.len(),
        last_ids[k] is Some,
    ensures
        last_ids[k]->Some_0 <= last_row_mark(last_ids, last_ids.len() as int),
        last_row_mark(last_ids, last_ids.len() as int) == 0 || exists|m: int|
            0 <= m < last_ids.len() && (#[trigger] last_ids[m]) is Some && last_ids[m]->Some_0
                == last_row_mark(last_ids, last_ids.len() as int),
{
    lemma_last_row_mark(last_ids, last_ids.len() as int);
}

proof fn lemma_owner(table_ids: Seq<u128>, id: u128, i: int)
    requires
        0 <= i <= table_ids.len(),
    ensures
        match owner_position(table_ids, id, i) {
            Some(p) => i <= p < table_ids.len() && table_ids[p] == id,
            None => forall|k: int| i <= k < table_ids.len() ==> #[trigger] table_ids[k] != id,
        },
    decreases table_ids.len() - i,
{
    if i < table_ids.len() && table_ids[i] != id {
        lemma_owner(table_ids, id, i + 1);
    }
}

/// A manifest goes to the table of its identity, and is left aside exactly
/// where there is none.
pub proof fn law_manifest_finds_its_table(table_ids: Seq<u128>, id: u128)
    ensures
        match owner_position(table_ids, id, 0) {
            Some(p) => 0 <= p < table_ids.len() && table_ids[p] == id,
            None => !table_ids.contains(id),
        },
{
    lemma_owner(table_ids, id, 0);
}

} // verus!
