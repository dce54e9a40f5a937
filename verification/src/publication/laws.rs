//! What the bookkeeping of a publication is for.
use super::control::CatalogMeta;
use super::control::ControlRecord;
use super::data::merged_change;
use super::data::prebuilt;
use super::data::written_descriptor;
use super::data::SealPlan;
use super::data::WrittenSegment;
use super::indexes::pack_change;
use super::indexes::row_segments;
use super::indexes::CandidateView;
use super::manifests::added_row_mark;
use super::manifests::planned_manifest;
use super::manifests::row_mark;
use super::manifests::PlanView;
use super::manifests::SourceView;
use super::segments::change_of;
use super::segments::is_durable_row;
use super::segments::is_settled_order;
use super::segments::joined_change;
use super::segments::joined_changes;
use super::segments::least_unpublished;
use super::segments::membership_refusal;
use super::segments::newest_transaction;
use super::segments::oldest_transaction;
use super::segments::rebase_refusal;
use super::segments::runtime_id;
use super::segments::runtime_refusal;
use super::segments::segment_of;
use super::segments::table_ids;
use super::segments::ArtifactRef;
use super::segments::ChangeView;
use super::segments::RuntimeSegment;
use super::segments::SegmentDescriptor;
use crate::error::lemma_no_refusal;
use crate::recovery::artifacts::SegmentKind;
use crate::recovery::artifacts::SegmentTier;
use crate::sort::lemma_permutation;
use crate::sort::lists;
use vstd::prelude::*;

verus! {

/// A change adds this segment to this table.
pub open spec fn offers(changes: Seq<ChangeView>, table_id: u128, s: SegmentDescriptor) -> bool {
    exists|p: int|
        0 <= p < changes.len() && (#[trigger] changes[p]).table_id == table_id
            && changes[p].additions.contains(s)
}

/// A change takes this segment from this table.
pub open spec fn takes(changes: Seq<ChangeView>, table_id: u128, id: u128) -> bool {
    exists|p: int|
        0 <= p < changes.len() && (#[trigger] changes[p]).table_id == table_id
            && changes[p].removals.contains(id)
}

/// A change confirms this generation of the table's tombstones.
pub open spec fn confirms(changes: Seq<ChangeView>, table_id: u128, generation: u64) -> bool {
    exists|p: int|
        0 <= p < changes.len() && (#[trigger] changes[p]).table_id == table_id
            && changes[p].tombstone_ack == Some(generation)
}

proof fn lemma_change_position(changes: Seq<ChangeView>, table_id: u128, i: int)
    requires
        0 <= i,
    ensures
        change_of(changes, table_id, i) matches Some(p) ==> i <= p < changes.len()
            && changes[p].table_id == table_id,
    decreases changes.len() - i,
{
    if i < changes.len() && changes[i].table_id != table_id {
        lemma_change_position(changes, table_id, i + 1);
    }
}

proof fn lemma_concat_member<A>(a: Seq<A>, b: Seq<A>, x: A)
    ensures
        (a + b).contains(x) <==> a.contains(x) || b.contains(x),
{
    if a.contains(x) {
        let k = choose|k: int| 0 <= k < a.len() && a[k] == x;
        assert((a + b)[k] == x);
    }
    if b.contains(x) {
        let k = choose|k: int| 0 <= k < b.len() && b[k] == x;
        assert((a + b)[a.len() + k] == x);
    }
    if (a + b).contains(x) {
        let k = choose|k: int| 0 <= k < (a + b).len() && (a + b)[k] == x;
        if k < a.len() {
            assert(a[k] == x);
        } else {
            assert(b[k - a.len()] == x);
        }
    }
}

proof fn lemma_joined_change(
    target: Seq<ChangeView>,
    change: ChangeView,
    table_id: u128,
    s: SegmentDescriptor,
    id: u128,
    generation: u64,
)
    requires
        joined_change(target, change) is Ok,
    ensures
        ({
            let out = joined_change(target, change)->Ok_0;
            &&& offers(out, table_id, s) <==> offers(target, table_id, s) || (change.table_id
                == table_id && change.additions.contains(s))
            &&& takes(out, table_id, id) <==> takes(target, table_id, id) || (change.table_id
                == table_id && change.removals.contains(id))
            &&& confirms(out, table_id, generation) <==> confirms(target, table_id, generation)
                || (change.table_id == table_id && change.tombstone_ack == Some(generation))
        }),
{
    let out = joined_change(target, change)->Ok_0;
    lemma_change_position(target, change.table_id, 0);
    match change_of(target, change.table_id, 0) {
        None => {
            let last = target.len() as int;
            assert(out[last] == change);
            assert forall|p: int| 0 <= p < target.len() implies #[trigger] out[p] == target[p] by {}
            if offers(target, table_id, s) {
                let p = choose|p: int|
                    0 <= p < target.len() && (#[trigger] target[p]).table_id == table_id
                        && target[p].additions.contains(s);
                assert(out[p] == target[p]);
            }
            if takes(target, table_id, id) {
                let p = choose|p: int|
                    0 <= p < target.len() && (#[trigger] target[p]).table_id == table_id
                        && target[p].removals.contains(id);
                assert(out[p] == target[p]);
            }
            if confirms(target, table_id, generation) {
                let p = choose|p: int|
                    0 <= p < target.len() && (#[trigger] target[p]).table_id == table_id
                        && target[p].tombstone_ack == Some(generation);
                assert(out[p] == target[p]);
            }
            if offers(out, table_id, s) {
                let p = choose|p: int|
                    0 <= p < out.len() && (#[trigger] out[p]).table_id == table_id
                        && out[p].additions.contains(s);
                if p < last {
                    assert(target[p].table_id == table_id);
                }
            }
            if takes(out, table_id, id) {
                let p = choose|p: int|
                    0 <= p < out.len() && (#[trigger] out[p]).table_id == table_id
                        && out[p].removals.contains(id);
                if p < last {
                    assert(target[p].table_id == table_id);
                }
            }
            if confirms(out, table_id, generation) {
                let p = choose|p: int|
                    0 <= p < out.len() && (#[trigger] out[p]).table_id == table_id
                        && out[p].tombstone_ack == Some(generation);
                if p < last {
                    assert(target[p].table_id == table_id);
                }
            }
        },
        Some(q) => {
            lemma_concat_member(target[q].additions, change.additions, s);
            lemma_concat_member(target[q].removals, change.removals, id);
            assert(out[q].table_id == change.table_id);
            assert(target[q].table_id == change.table_id);
            assert forall|p: int| 0 <= p < target.len() && p != q implies #[trigger] out[p]
                == target[p] by {}
            if offers(target, table_id, s) {
                let p = choose|p: int|
                    0 <= p < target.len() && (#[trigger] target[p]).table_id == table_id
                        && target[p].additions.contains(s);
                assert(out[p].table_id == table_id);
            }
            if takes(target, table_id, id) {
                let p = choose|p: int|
                    0 <= p < target.len() && (#[trigger] target[p]).table_id == table_id
                        && target[p].removals.contains(id);
                assert(out[p].table_id == table_id);
            }
            if confirms(target, table_id, generation) {
                let p = choose|p: int|
                    0 <= p < target.len() && (#[trigger] target[p]).table_id == table_id
                        && target[p].tombstone_ack == Some(generation);
                assert(out[p].table_id == table_id);
            }
            if offers(out, table_id, s) {
                let p = choose|p: int|
                    0 <= p < out.len() && (#[trigger] out[p]).table_id == table_id
                        && out[p].additions.contains(s);
                assert(target[p].table_id == table_id);
            }
            if takes(out, table_id, id) {
                let p = choose|p: int|
                    0 <= p < out.len() && (#[trigger] out[p]).table_id == table_id
                        && out[p].removals.contains(id);
                assert(target[p].table_id == table_id);
            }
            if confirms(out, table_id, generation) {
                let p = choose|p: int|
                    0 <= p < out.len() && (#[trigger] out[p]).table_id == table_id
                        && out[p].tombstone_ack == Some(generation);
                assert(target[p].table_id == table_id);
            }
        },
    }
}

proof fn lemma_joined_changes(
    target: Seq<ChangeView>,
    incoming: Seq<ChangeView>,
    i: int,
    table_id: u128,
    s: SegmentDescriptor,
    id: u128,
    generation: u64,
)
    requires
        0 <= i <= incoming.len(),
        joined_changes(target, incoming, i) is Ok,
    ensures
        ({
            let out = joined_changes(target, incoming, i)->Ok_0;
            let rest = incoming.skip(i);
            &&& offers(out, table_id, s) <==> offers(target, table_id, s) || offers(
                rest,
                table_id,
                s,
            )
            &&& takes(out, table_id, id) <==> takes(target, table_id, id) || takes(
                rest,
                table_id,
                id,
            )
            &&& confirms(out, table_id, generation) <==> confirms(target, table_id, generation)
                || confirms(rest, table_id, generation)
        }),
    decreases incoming.len() - i,
{
    let rest = incoming.skip(i);
    if i < incoming.len() {
        let next = joined_change(target, incoming[i])->Ok_0;
        lemma_joined_change(target, incoming[i], table_id, s, id, generation);
        lemma_joined_changes(next, incoming, i + 1, table_id, s, id, generation);
        let tail = incoming.skip(i + 1);
        assert(rest[0] == incoming[i]);
        assert forall|p: int| 0 <= p < tail.len() implies #[trigger] tail[p] == rest[p + 1] by {}
        assert forall|p: int| 0 < p < rest.len() implies #[trigger] rest[p] == tail[p - 1] by {}
        if offers(tail, table_id, s) {
            let p = choose|p: int|
                0 <= p < tail.len() && (#[trigger] tail[p]).table_id == table_id
                    && tail[p].additions.contains(s);
            assert(rest[p + 1].table_id == table_id);
        }
        if takes(tail, table_id, id) {
            let p = choose|p: int|
                0 <= p < tail.len() && (#[trigger] tail[p]).table_id == table_id
                    && tail[p].removals.contains(id);
            assert(rest[p + 1].table_id == table_id);
        }
        if confirms(tail, table_id, generation) {
            let p = choose|p: int|
                0 <= p < tail.len() && (#[trigger] tail[p]).table_id == table_id
                    && tail[p].tombstone_ack == Some(generation);
            assert(rest[p + 1].table_id == table_id);
        }
        if offers(rest, table_id, s) {
            let p = choose|p: int|
                0 <= p < rest.len() && (#[trigger] rest[p]).table_id == table_id
                    && rest[p].additions.contains(s);
            if p > 0 {
                assert(tail[p - 1].table_id == table_id);
            }
        }
        if takes(rest, table_id, id) {
            let p = choose|p: int|
                0 <= p < rest.len() && (#[trigger] rest[p]).table_id == table_id
                    && rest[p].removals.contains(id);
            if p > 0 {
                assert(tail[p - 1].table_id == table_id);
            }
        }
        if confirms(rest, table_id, generation) {
            let p = choose|p: int|
                0 <= p < rest.len() && (#[trigger] rest[p]).table_id == table_id
                    && rest[p].tombstone_ack == Some(generation);
            if p > 0 {
                assert(tail[p - 1].table_id == table_id);
            }
        }
    }
}

/// Joining the changes of a checkpoint loses none of them and makes none up:
/// a table gains a segment, loses one or has its tombstones confirmed exactly
/// where one of the joined changes says so.
pub proof fn law_joined_changes_lose_nothing(
    target: Seq<ChangeView>,
    incoming: Seq<ChangeView>,
    order: Seq<usize>,
    out: Seq<ChangeView>,
    table_id: u128,
    s: SegmentDescriptor,
    id: u128,
    generation: u64,
)
    requires
        joined_changes(target, incoming, 0) is Ok,
        is_settled_order(joined_changes(target, incoming, 0)->Ok_0, order, out),
    ensures
        offers(out, table_id, s) <==> offers(target, table_id, s) || offers(incoming, table_id, s),
        takes(out, table_id, id) <==> takes(target, table_id, id) || takes(incoming, table_id, id),
        confirms(out, table_id, generation) <==> confirms(target, table_id, generation) || confirms(
            incoming,
            table_id,
            generation,
        ),
{
    lemma_joined_changes(target, incoming, 0, table_id, s, id, generation);
    assert(incoming.skip(0) =~= incoming);
    let joined = joined_changes(target, incoming, 0)->Ok_0;
    assert(table_ids(joined).len() == joined.len());
    assert forall|a: int| 0 <= a < out.len() implies 0 <= (#[trigger] order[a]) < joined.len() by {
        assert(super::segments::is_settled(joined[order[a] as int], out[a]));
        assert(order[a] < table_ids(joined).len());
    }
    assert forall|a: int| 0 <= a < out.len() implies {
        let b = joined[order[a] as int];
        &&& (#[trigger] out[a]).table_id == b.table_id
        &&& out[a].additions == b.additions
        &&& out[a].tombstone_ack == b.tombstone_ack
        &&& out[a].removals.contains(id) == b.removals.contains(id)
    } by {
        let b = joined[order[a] as int];
        assert(super::segments::is_settled(b, out[a]));
        lemma_permutation(out[a].removals, b.removals);
    }
    if offers(out, table_id, s) {
        let a = choose|a: int|
            0 <= a < out.len() && (#[trigger] out[a]).table_id == table_id
                && out[a].additions.contains(s);
        assert(joined[order[a] as int].table_id == table_id);
    }
    if takes(out, table_id, id) {
        let a = choose|a: int|
            0 <= a < out.len() && (#[trigger] out[a]).table_id == table_id
                && out[a].removals.contains(id);
        assert(joined[order[a] as int].table_id == table_id);
    }
    if confirms(out, table_id, generation) {
        let a = choose|a: int|
            0 <= a < out.len() && (#[trigger] out[a]).table_id == table_id
                && out[a].tombstone_ack == Some(generation);
        assert(joined[order[a] as int].table_id == table_id);
    }
    if offers(joined, table_id, s) {
        let p = choose|p: int|
            0 <= p < joined.len() && (#[trigger] joined[p]).table_id == table_id
                && joined[p].additions.contains(s);
        assert(lists(order, p));
        let a = choose|a: int| 0 <= a < order.len() && #[trigger] order[a] == p;
        assert(out[a].table_id == table_id);
    }
    if takes(joined, table_id, id) {
        let p = choose|p: int|
            0 <= p < joined.len() && (#[trigger] joined[p]).table_id == table_id
                && joined[p].removals.contains(id);
        assert(lists(order, p));
        let a = choose|a: int| 0 <= a < order.len() && #[trigger] order[a] == p;
        assert(out[a].table_id == table_id);
    }
    if confirms(joined, table_id, generation) {
        let p = choose|p: int|
            0 <= p < joined.len() && (#[trigger] joined[p]).table_id == table_id
                && joined[p].tombstone_ack == Some(generation);
        assert(lists(order, p));
        let a = choose|a: int| 0 <= a < order.len() && #[trigger] order[a] == p;
        assert(out[a].table_id == table_id);
    }
}

proof fn lemma_added_row_mark(additions: Seq<SegmentDescriptor>, n: int)
    requires
        0 <= n <= additions.len(),
    ensures
        0 <= added_row_mark(additions, n),
        forall|k: int|
            0 <= k < n && (#[trigger] additions[k]).kind == SegmentKind::Rows
                ==> additions[k].last_row_id <= added_row_mark(additions, n),
        added_row_mark(additions, n) == 0 || exists|k: int|
            0 <= k < n && (#[trigger] additions[k]).kind == SegmentKind::Rows
                && additions[k].last_row_id == added_row_mark(additions, n),
    decreases n,
{
    if n > 0 {
        lemma_added_row_mark(additions, n - 1);
        let before = added_row_mark(additions, n - 1);
        if before > 0 {
            let k = choose|k: int|
                0 <= k < n - 1 && (#[trigger] additions[k]).kind == SegmentKind::Rows
                    && additions[k].last_row_id == before;
            assert(additions[k].last_row_id == before);
        }
        assert(additions[n - 1] == additions[n - 1]);
    }
}

/// The row identities of a written manifest go on behind those that it had,
/// behind the table's counter and behind every row that is added: none is
/// handed out twice. No further than that.
pub proof fn law_row_identities_go_on(
    source: Option<SourceView>,
    auto_increment: Option<i64>,
    change: Option<ChangeView>,
    k: int,
)
    requires
        planned_manifest(source, auto_increment, change) is Ok,
        planned_manifest(source, auto_increment, change)->Ok_0 is Write,
    ensures
        ({
            let mark = planned_manifest(source, auto_increment, change)->Ok_0->row_id_high_water;
            &&& source is Some ==> source->Some_0.row_id_high_water <= mark
            &&& auto_increment is Some ==> auto_increment->Some_0 <= mark
            &&& change is Some && 0 <= k < change->Some_0.additions.len()
                && change->Some_0.additions[k].kind == SegmentKind::Rows
                ==> change->Some_0.additions[k].last_row_id <= mark
            &&& mark == 0 || (source is Some && source->Some_0.row_id_high_water == mark) || (
            auto_increment is Some && auto_increment->Some_0 == mark) || (change is Some && exists|
                m: int,
            |
                0 <= m < change->Some_0.additions.len() && (
                #[trigger] change->Some_0.additions[m]).kind == SegmentKind::Rows
                    && change->Some_0.additions[m].last_row_id == mark)
        }),
{
    if let Some(c) = change {
        lemma_added_row_mark(c.additions, c.additions.len() as int);
    }
    assert(planned_manifest(source, auto_increment, change)->Ok_0->row_id_high_water == row_mark(
        source,
        auto_increment,
        change,
    ));
}

/// A table that no change touches keeps its manifest.
pub proof fn law_untouched_table_keeps_its_manifest(
    source: SourceView,
    auto_increment: Option<i64>,
)
    requires
        source.reference is Some,
    ensures
        planned_manifest(Some(source), auto_increment, None) == Ok::<
            PlanView,
            crate::error::ErrorView,
        >(PlanView::Reuse { reference: source.reference->Some_0 }),
{
}

proof fn lemma_range(segments: Seq<SegmentDescriptor>, n: int)
    requires
        0 <= n <= segments.len(),
    ensures
        forall|k: int|
            0 <= k < n ==> oldest_transaction(segments, n) <= (
            #[trigger] segments[k]).min_transaction_id && segments[k].max_transaction_id
                <= newest_transaction(segments, n),
        n > 0 ==> exists|k: int|
            0 <= k < n && (#[trigger] segments[k]).min_transaction_id == oldest_transaction(
                segments,
                n,
            ),
        newest_transaction(segments, n) == 0 || exists|k: int|
            0 <= k < n && (#[trigger] segments[k]).max_transaction_id == newest_transaction(
                segments,
                n,
            ),
    decreases n,
{
    if n > 0 {
        lemma_range(segments, n - 1);
        let low = oldest_transaction(segments, n - 1);
        let high = newest_transaction(segments, n - 1);
        assert(segments[n - 1].min_transaction_id <= u64::MAX);
        if n > 1 {
            let k = choose|k: int|
                0 <= k < n - 1 && (#[trigger] segments[k]).min_transaction_id == low;
            assert(segments[k].min_transaction_id == low);
        }
        if high > 0 {
            let k = choose|k: int|
                0 <= k < n - 1 && (#[trigger] segments[k]).max_transaction_id == high;
            assert(segments[k].max_transaction_id == high);
        }
    }
}

/// The transactions that a merge records are those of its inputs: from the
/// oldest of any to the newest of any.
pub proof fn law_merge_spans_its_inputs(segments: Seq<SegmentDescriptor>, k: int)
    requires
        0 <= k < segments.len(),
    ensures
        ({
            let n = segments.len() as int;
            &&& oldest_transaction(segments, n) <= segments[k].min_transaction_id
            &&& segments[k].max_transaction_id <= newest_transaction(segments, n)
            &&& exists|m: int|
                0 <= m < n && (#[trigger] segments[m]).min_transaction_id == oldest_transaction(
                    segments,
                    n,
                )
            &&& exists|m: int|
                0 <= m < n && (#[trigger] segments[m]).max_transaction_id == newest_transaction(
                    segments,
                    n,
                )
        }),
{
    let n = segments.len() as int;
    lemma_range(segments, n);
    if newest_transaction(segments, n) == 0 {
        assert(segments[k].max_transaction_id == 0);
    }
}

proof fn lemma_segment_of(segments: Seq<SegmentDescriptor>, id: u128, i: int)
    requires
        0 <= i,
    ensures
        segment_of(segments, id, i) matches Some(s) ==> s.id == id && segments.contains(s),
    decreases segments.len() - i,
{
    if i < segments.len() && segments[i].id != id {
        lemma_segment_of(segments, id, i + 1);
    }
}

/// A merge is published only where the selected generation is the one it was
/// planned on and still lists every input just as it was read.
pub proof fn law_merge_publishes_on_unchanged_inputs(
    meta: CatalogMeta,
    control: ControlRecord,
    table: Option<Seq<SegmentDescriptor>>,
    expected: Seq<SegmentDescriptor>,
    k: int,
)
    requires
        rebase_refusal(meta, control, table, expected) is None,
    ensures
        meta.catalog_generation == control.catalog.generation,
        meta.catalog_id == control.catalog.id,
        table is Some,
        0 <= k < expected.len() ==> table->Some_0.contains(expected[k]),
{
    if 0 <= k < expected.len() {
        assert(segment_of(table->Some_0, expected[k].id, 0) == Some(expected[k]));
        lemma_segment_of(table->Some_0, expected[k].id, 0);
    }
}

proof fn lemma_least_is_none(
    runtime: Seq<RuntimeSegment>,
    durable: Seq<SegmentDescriptor>,
    n: int,
    k: int,
)
    requires
        0 <= k < n <= runtime.len(),
        least_unpublished(runtime, durable, n) is None,
    ensures
        is_durable_row(durable, runtime_id(runtime[k])),
    decreases n,
{
    if k < n - 1 {
        lemma_least_is_none(runtime, durable, n - 1, k);
    }
}

/// A checkpoint goes on only where every segment that the runtime holds is a
/// row segment of the table and the selected generation lists it: nothing that
/// was never published is given up with the log.
pub proof fn law_every_runtime_segment_is_published(
    table: Seq<char>,
    table_id: u128,
    runtime: Seq<RuntimeSegment>,
    durable: Seq<SegmentDescriptor>,
    k: int,
)
    requires
        membership_refusal(table, table_id, runtime, durable) is None,
        0 <= k < runtime.len(),
    ensures
        runtime[k].artifact is Some,
        runtime[k].artifact->Some_0.table_id == table_id,
        runtime[k].artifact->Some_0.kind == SegmentKind::Rows,
        exists|d: int|
            0 <= d < durable.len() && (#[trigger] durable[d]).kind == SegmentKind::Rows
                && durable[d].id == runtime[k].artifact->Some_0.segment_id,
{
    let check = |k: int| runtime_refusal(table, table_id, runtime[k]);
    lemma_no_refusal(0, runtime.len() as int, check);
    assert(check(k) is None);
    lemma_least_is_none(runtime, durable, runtime.len() as int, k);
}

/// A sealed segment says of itself what was written: its rows from the first to
/// the last, how many, on the first level, and no transaction above the
/// frontier that the log had reached.
pub proof fn law_sealed_segment_describes_its_rows(plan: SealPlan, w: WrittenSegment)
    ensures
        ({
            let d = written_descriptor(plan, w);
            &&& d.id == w.segment_id
            &&& d.kind == SegmentKind::Rows
            &&& d.tier == SegmentTier::L0
            &&& d.min_transaction_id == 1
            &&& d.max_transaction_id == plan.transaction_high_water
            &&& d.row_count == plan.shape.row_count
            &&& d.first_row_id == plan.first_row_id
            &&& d.last_row_id == plan.last_row_id
            &&& d.data == w.data.artifact
            &&& w.index is None ==> d.index is None
            &&& w.index is Some ==> d.index == Some(w.index->Some_0.artifact)
        }),
{
}

/// Publishing a merge adds its own outputs and the rewritten tombstones, and
/// removes its inputs and the tombstones that were rewritten; nothing else.
pub proof fn law_merge_change_is_whole(
    table_id: u128,
    additions: Seq<SegmentDescriptor>,
    removals: Seq<u128>,
    tombstones: Option<ChangeView>,
    s: SegmentDescriptor,
    id: u128,
)
    ensures
        ({
            let change = merged_change(table_id, additions, removals, tombstones);
            &&& change.table_id == table_id
            &&& change.tombstone_ack is None
            &&& change.additions.contains(s) <==> additions.contains(s) || (tombstones is Some
                && tombstones->Some_0.additions.contains(s))
            &&& change.removals.contains(id) <==> removals.contains(id) || (tombstones is Some
                && tombstones->Some_0.removals.contains(id))
        }),
{
    if let Some(t) = tombstones {
        lemma_concat_member(additions, t.additions, s);
        lemma_concat_member(removals, t.removals, id);
    }
}

proof fn lemma_pushed_artifact(s: Seq<ArtifactRef>, x: ArtifactRef, y: ArtifactRef)
    ensures
        s.push(x).contains(y) <==> s.contains(y) || x == y,
{
    let t = s.push(x);
    if s.contains(y) {
        let k = choose|k: int| 0 <= k < s.len() && s[k] == y;
        assert(t[k] == y);
    }
    if x == y {
        assert(t[s.len() as int] == y);
    }
    if t.contains(y) {
        let k = choose|k: int| 0 <= k < t.len() && t[k] == y;
        if k < s.len() {
            assert(s[k] == y);
        }
    }
}

/// The artifacts that a merge brings along are the rows and the indexes of its
/// outputs, all of them and no others.
pub proof fn law_merge_brings_its_artifacts(
    additions: Seq<SegmentDescriptor>,
    n: int,
    artifact: ArtifactRef,
)
    requires
        0 <= n <= additions.len(),
    ensures
        prebuilt(additions, n).contains(artifact) <==> exists|k: int|
            0 <= k < n && ((#[trigger] additions[k]).data == artifact || additions[k].index == Some(
                artifact,
            )),
    decreases n,
{
    if n > 0 {
        law_merge_brings_its_artifacts(additions, n - 1, artifact);
        let before = prebuilt(additions, n - 1);
        let last = additions[n - 1];
        lemma_pushed_artifact(before, last.data, artifact);
        if let Some(index) = last.index {
            lemma_pushed_artifact(before.push(last.data), index, artifact);
        }
        if before.contains(artifact) {
            let k = choose|k: int|
                0 <= k < n - 1 && ((#[trigger] additions[k]).data == artifact
                    || additions[k].index == Some(artifact));
            assert(additions[k].data == artifact || additions[k].index == Some(artifact));
        }
        if last.data == artifact || last.index == Some(artifact) {
            assert(additions[n - 1].data == artifact || additions[n - 1].index == Some(artifact));
        }
    }
}

/// An index publication puts in the place of each row segment the same segment
/// with its rebuilt index, and touches no other.
pub proof fn law_index_publication_replaces_in_place(
    candidate: CandidateView,
    rebuilt: Seq<ArtifactRef>,
    i: int,
)
    requires
        0 <= i < candidate.segments.len(),
    ensures
        ({
            let change = pack_change(candidate, rebuilt);
            let was = candidate.segments[i];
            let now = change.additions[i];
            &&& change.table_id == candidate.table_id
            &&& change.tombstone_ack is None
            &&& change.additions.len() == candidate.segments.len()
            &&& change.removals.len() == candidate.segments.len()
            &&& change.removals[i] == was.id
            &&& now.index == Some(rebuilt[i])
            &&& now.id == was.id
            &&& now.kind == was.kind
            &&& now.tier == was.tier
            &&& now.min_transaction_id == was.min_transaction_id
            &&& now.max_transaction_id == was.max_transaction_id
            &&& now.row_count == was.row_count
            &&& now.first_row_id == was.first_row_id
            &&& now.last_row_id == was.last_row_id
            &&& now.data == was.data
        }),
{
}

/// The segments that get a new index are the row segments of the manifest, all
/// of them and no others.
pub proof fn law_row_segments_are_indexed(
    segments: Seq<SegmentDescriptor>,
    s: SegmentDescriptor,
)
    ensures
        row_segments(segments).contains(s) <==> segments.contains(s) && s.kind == SegmentKind::Rows,
{
    broadcast use vstd::seq_lib::group_filter_ensures;

    let keep = |s: SegmentDescriptor| super::indexes::is_row_segment(s);
    let kept = segments.filter(keep);
    if kept.contains(s) {
        segments.lemma_filter_contains_rev(keep, s);
        let k = choose|k: int| 0 <= k < kept.len() && kept[k] == s;
        assert(keep(kept[k]));
    }
    if segments.contains(s) && keep(s) {
        let k = choose|k: int| 0 <= k < segments.len() && segments[k] == s;
        segments.lemma_filter_contains(keep, k);
    }
}

} // verus!
