//! Merging of sorted segments into one stream of surviving rows.
use crate::compaction::plan::resolvable;
use crate::compaction::plan::strictly_ascending;
use crate::compaction::plan::SegmentVolume;
use crate::compaction::row_ref::unencodable_error;
use crate::compaction::row_ref::CompactionRowRef;
use crate::compaction::row_ref::ROW_GROUP_SIZE;
use crate::error::Error;
use crate::fx::tombstone_get;
use crate::num::max_size;
use crate::num::spec_max;
use crate::num::spec_min;
use rustc_hash::FxHashMap;
use vstd::prelude::*;

verus! {

/// Row identities of the merge inputs, newest input first.
pub open spec fn id_streams(volumes: Seq<SegmentVolume>) -> Seq<Seq<i64>> {
    Seq::new(volumes.len(), |v: int| volumes[v].row_ids@)
}

pub open spec fn streams_ascend(streams: Seq<Seq<i64>>) -> bool {
    forall|v: int| 0 <= v < streams.len() ==> strictly_ascending(#[trigger] streams[v])
}

/// Input `v` holds the row at position `i`.
pub open spec fn holds(streams: Seq<Seq<i64>>, v: int, i: int, row_id: i64) -> bool {
    &&& 0 <= v < streams.len()
    &&& 0 <= i < streams[v].len()
    &&& streams[v][i] == row_id
}

/// `v` is the newest input that holds the row, at position `i`.
pub open spec fn newest_copy(streams: Seq<Seq<i64>>, row_id: i64, v: int, i: int) -> bool {
    &&& holds(streams, v, i, row_id)
    &&& forall|w: int, j: int| w < v ==> !#[trigger] holds(streams, w, j, row_id)
}

/// The row is deleted by a tombstone every reader sees.
pub open spec fn suppressed(
    tombstones: Map<i64, u64>,
    boundary: Option<u64>,
    row_id: i64,
) -> bool {
    tombstones.dom().contains(row_id) && resolvable(tombstones[row_id], boundary)
}

/// One position per input: the next row of each that was not consumed yet.
pub open spec fn cursor_in_range(positions: Seq<usize>, streams: Seq<Seq<i64>>) -> bool {
    &&& positions.len() == streams.len()
    &&& forall|v: int| 0 <= v < streams.len() ==> (#[trigger] positions[v]) <= streams[v].len()
}

/// Input `v` has its next unconsumed row at `row_id`.
pub open spec fn head_is(
    positions: Seq<usize>,
    streams: Seq<Seq<i64>>,
    v: int,
    row_id: i64,
) -> bool {
    &&& 0 <= v < streams.len()
    &&& positions[v] < streams[v].len()
    &&& streams[v][positions[v] as int] == row_id
}

/// `row_id` is the least unconsumed identity, and `v` its newest holder.
pub open spec fn is_least_head(
    positions: Seq<usize>,
    streams: Seq<Seq<i64>>,
    v: int,
    row_id: i64,
) -> bool {
    &&& head_is(positions, streams, v, row_id)
    &&& forall|w: int|
        0 <= w < streams.len() && positions[w] < streams[w].len() ==> row_id
            <= streams[w][#[trigger] positions[w] as int]
    &&& forall|w: int| 0 <= w < v ==> !#[trigger] head_is(positions, streams, w, row_id)
}

/// Every input whose next row is `row_id` moves past it.
pub open spec fn advanced(
    before: Seq<usize>,
    streams: Seq<Seq<i64>>,
    row_id: i64,
    after: Seq<usize>,
) -> bool {
    &&& after.len() == before.len()
    &&& forall|w: int|
        0 <= w < before.len() ==> #[trigger] after[w] == if head_is(before, streams, w, row_id) {
            before[w] + 1
        } else {
            before[w] as int
        }
}

/// What one merge step found.
#[derive(Debug, Clone, Copy, PartialEq, Eq, Structural)]
pub struct MergedRow {
    pub row_id: i64,
    pub volume: usize,
    pub row: usize,
}

/// Takes the least unconsumed row off all inputs that hold it.
pub fn next_merged_row(volumes: &Vec<SegmentVolume>, positions: &mut Vec<usize>) -> (r: Option<
    MergedRow,
>)
    requires
        cursor_in_range(old(positions)@, id_streams(volumes@)),
    ensures
        cursor_in_range(final(positions)@, id_streams(volumes@)),
        match r {
            None => {
                &&& final(positions)@ == old(positions)@
                &&& forall|v: int|
                    0 <= v < volumes@.len() ==> (#[trigger] old(positions)@[v])
                        == volumes@[v].row_ids@.len()
            },
            Some(m) => {
                &&& is_least_head(
                    old(positions)@,
                    id_streams(volumes@),
                    m.volume as int,
                    m.row_id,
                )
                &&& m.row == old(positions)@[m.volume as int]
                &&& advanced(old(positions)@, id_streams(volumes@), m.row_id, final(positions)@)
            },
        },
{
    let ghost streams = id_streams(volumes@);
    let ghost before = positions@;
    let mut best: Option<MergedRow> = None;
    let mut v: usize = 0;
    while v < volumes.len()
        invariant
            streams == id_streams(volumes@),
            positions@ == before,
            cursor_in_range(before, streams),
            0 <= v <= volumes@.len(),
            match best {
                None => forall|w: int|
                    0 <= w < v ==> (#[trigger] before[w]) == streams[w].len(),
                Some(m) => {
                    &&& m.volume < v
                    &&& head_is(before, streams, m.volume as int, m.row_id)
                    &&& m.row == before[m.volume as int]
                    &&& forall|w: int|
                        0 <= w < v && before[w] < streams[w].len() ==> m.row_id
                            <= streams[w][#[trigger] before[w] as int]
                    &&& forall|w: int|
                        0 <= w < m.volume ==> !#[trigger] head_is(before, streams, w, m.row_id)
                },
            },
        decreases volumes@.len() - v,
    {
        let at: usize = positions[v];
        assert(streams[v as int] == volumes@[v as int].row_ids@);
        if at < volumes[v].row_ids.len() {
            let row_id: i64 = volumes[v].row_ids[at];
            let better: bool = match best {
                None => true,
                Some(m) => row_id < m.row_id,
            };
            if better {
                best = Some(MergedRow { row_id, volume: v, row: at });
            }
        }
        v = v + 1;
    }
    match best {
        None => None,
        Some(m) => {
            let mut w: usize = 0;
            while w < volumes.len()
                invariant
                    streams == id_streams(volumes@),
                    before.len() == volumes@.len(),
                    positions@.len() == before.len(),
                    cursor_in_range(before, streams),
                    0 <= w <= volumes@.len(),
                    forall|u: int|
                        0 <= u < w ==> #[trigger] positions@[u] == if head_is(
                            before,
                            streams,
                            u,
                            m.row_id,
                        ) {
                            before[u] + 1
                        } else {
                            before[u] as int
                        },
                    forall|u: int| w <= u < before.len() ==> positions@[u] == before[u],
                decreases volumes@.len() - w,
            {
                let at: usize = positions[w];
                assert(streams[w as int] == volumes@[w as int].row_ids@);
                assert(at == before[w as int]);
                if at < volumes[w].row_ids.len() && volumes[w].row_ids[at] == m.row_id {
                    assert(head_is(before, streams, w as int, m.row_id));
                    positions.set(w, at + 1);
                }
                w = w + 1;
            }
            assert forall|u: int| 0 <= u < streams.len() implies (#[trigger] positions@[u])
                <= streams[u].len() by {
                if head_is(before, streams, u, m.row_id) {
                }
            }
            Some(m)
        },
    }
}

/// The merged stream: ascending, one reference per surviving row, each to the
/// newest copy, and nothing left out but suppressed rows.
pub open spec fn is_merge_of(
    streams: Seq<Seq<i64>>,
    tombstones: Map<i64, u64>,
    boundary: Option<u64>,
    merged: Seq<CompactionRowRef>,
) -> bool {
    &&& forall|a: int, b: int|
        0 <= a < b < merged.len() ==> (#[trigger] merged[a]).row_id < (#[trigger] merged[b]).row_id
    &&& forall|a: int|
        0 <= a < merged.len() ==> newest_copy(
            streams,
            (#[trigger] merged[a]).row_id,
            merged[a].volume as int,
            merged[a].row as int,
        ) && !suppressed(tombstones, boundary, merged[a].row_id)
    &&& forall|v: int, i: int, row_id: i64| #[trigger]
        holds(streams, v, i, row_id) && !suppressed(tombstones, boundary, row_id)
            ==> exists|a: int| 0 <= a < merged.len() && (#[trigger] merged[a]).row_id == row_id
}

/// Everything consumed lies at or below `last`, everything else above it.
spec fn consumed_up_to(
    positions: Seq<usize>,
    streams: Seq<Seq<i64>>,
    last: Option<i64>,
) -> bool {
    match last {
        None => forall|v: int| 0 <= v < streams.len() ==> (#[trigger] positions[v]) == 0,
        Some(bound) => forall|v: int, i: int| #![trigger streams[v][i]]
            0 <= v < streams.len() && 0 <= i < streams[v].len() ==> (i < positions[v]
                <==> streams[v][i] <= bound),
    }
}

proof fn lemma_step_consumes(
    before: Seq<usize>,
    after: Seq<usize>,
    streams: Seq<Seq<i64>>,
    last: Option<i64>,
    v: int,
    row_id: i64,
)
    requires
        streams_ascend(streams),
        cursor_in_range(before, streams),
        consumed_up_to(before, streams, last),
        is_least_head(before, streams, v, row_id),
        advanced(before, streams, row_id, after),
    ensures
        consumed_up_to(after, streams, Some(row_id)),
        last matches Some(bound) ==> bound < row_id,
        newest_copy(streams, row_id, v, before[v] as int),
        forall|w: int, j: int| #[trigger]
            holds(streams, w, j, row_id) ==> head_is(before, streams, w, row_id),
{
    assert(streams[v][before[v] as int] == row_id);
    assert forall|w: int, i: int| #![trigger streams[w][i]]
        0 <= w < streams.len() && 0 <= i < streams[w].len() implies (i < after[w]
        <==> streams[w][i] <= row_id) by {
        let p = before[w] as int;
        assert(strictly_ascending(streams[w]));
        if p < streams[w].len() {
            assert(row_id <= streams[w][p]);
            if i < p {
                assert(streams[w][i] < streams[w][p]);
            } else if i > p {
                assert(streams[w][p] < streams[w][i]);
            }
        }
        if i < p {
            match last {
                None => {},
                Some(bound) => {
                    assert(streams[w][i] <= bound);
                    assert(streams[v][before[v] as int] > bound);
                },
            }
        }
    }
    assert forall|w: int, j: int| #[trigger] holds(streams, w, j, row_id) implies head_is(
        before,
        streams,
        w,
        row_id,
    ) by {
        let p = before[w] as int;
        assert(strictly_ascending(streams[w]));
        if j < p {
            match last {
                None => {},
                Some(bound) => {
                    assert(streams[w][j] <= bound);
                    assert(streams[v][before[v] as int] > bound);
                },
            }
        } else if j > p {
            assert(streams[w][p] < streams[w][j]);
            assert(row_id <= streams[w][p]);
        }
    }
    assert forall|w: int, j: int| w < v implies !#[trigger] holds(streams, w, j, row_id) by {
        if holds(streams, w, j, row_id) {
            assert(head_is(before, streams, w, row_id));
        }
    }
}

/// Whether the merge drops a row.
pub fn is_suppressed(
    tombstones: &FxHashMap<i64, u64>,
    boundary: Option<u64>,
    row_id: i64,
) -> (r: bool)
    ensures
        r == suppressed(tombstones@, boundary, row_id),
{
    match tombstone_get(tombstones, row_id) {
        None => false,
        Some(commit_seq) => match boundary {
            None => true,
            Some(limit) => commit_seq < limit,
        },
    }
}

/// A surviving row whose position cannot be encoded.
pub open spec fn has_unencodable_survivor(
    streams: Seq<Seq<i64>>,
    tombstones: Map<i64, u64>,
    boundary: Option<u64>,
) -> bool {
    exists|v: int, i: int, row_id: i64| #[trigger]
        unencodable_survivor(streams, tombstones, boundary, v, i, row_id)
}

pub open spec fn unencodable_survivor(
    streams: Seq<Seq<i64>>,
    tombstones: Map<i64, u64>,
    boundary: Option<u64>,
    v: int,
    i: int,
    row_id: i64,
) -> bool {
    &&& newest_copy(streams, row_id, v, i)
    &&& !suppressed(tombstones, boundary, row_id)
    &&& v > u32::MAX || i > u32::MAX
}

/// Some input holds the row.
pub open spec fn is_held(streams: Seq<Seq<i64>>, row_id: i64) -> bool {
    exists|v: int, i: int| #[trigger] holds(streams, v, i, row_id)
}

/// The identities the merge has examined: ascending, each held by an input,
/// and none below the last one left out.
pub open spec fn is_examined(streams: Seq<Seq<i64>>, seen: Seq<i64>) -> bool {
    &&& strictly_ascending(seen)
    &&& forall|k: int| 0 <= k < seen.len() ==> is_held(streams, #[trigger] seen[k])
    &&& forall|v: int, i: int, row_id: i64| #[trigger]
        holds(streams, v, i, row_id) && seen.len() > 0 && row_id <= seen.last() ==> seen.contains(
            row_id,
        )
}

/// The survivors among the examined rows, in order.
pub open spec fn is_kept(
    streams: Seq<Seq<i64>>,
    tombstones: Map<i64, u64>,
    boundary: Option<u64>,
    seen: Seq<i64>,
    kept: Seq<CompactionRowRef>,
) -> bool {
    &&& forall|a: int, b: int|
        0 <= a < b < kept.len() ==> (#[trigger] kept[a]).row_id < (#[trigger] kept[b]).row_id
    &&& forall|a: int|
        0 <= a < kept.len() ==> newest_copy(
            streams,
            (#[trigger] kept[a]).row_id,
            kept[a].volume as int,
            kept[a].row as int,
        ) && !suppressed(tombstones, boundary, kept[a].row_id) && seen.contains(kept[a].row_id)
    &&& forall|k: int|
        0 <= k < seen.len() && !suppressed(tombstones, boundary, #[trigger] seen[k])
            ==> exists|a: int| 0 <= a < kept.len() && (#[trigger] kept[a]).row_id == seen[k]
}

pub open spec fn last_of(seen: Seq<i64>) -> Option<i64> {
    if seen.len() == 0 {
        None
    } else {
        Some(seen.last())
    }
}

/// What one step of a merge came to.
#[derive(Debug)]
pub enum MergeStep {
    /// Every input is consumed.
    Exhausted,
    /// A tombstone deletes the row.
    Dropped,
    Kept(CompactionRowRef),
    Unencodable(Error),
}

/// A merge in progress.
pub struct MergeWalk {
    positions: Vec<usize>,
    seen: Ghost<Seq<i64>>,
    kept: Ghost<Seq<CompactionRowRef>>,
}

impl MergeWalk {
    pub closed spec fn cursor(self) -> Seq<usize> {
        self.positions@
    }

    /// Identities examined so far.
    pub closed spec fn seen(self) -> Seq<i64> {
        self.seen@
    }

    /// References to the survivors among them.
    pub closed spec fn kept(self) -> Seq<CompactionRowRef> {
        self.kept@
    }

    pub closed spec fn wf(
        self,
        streams: Seq<Seq<i64>>,
        tombstones: Map<i64, u64>,
        boundary: Option<u64>,
    ) -> bool {
        &&& streams_ascend(streams)
        &&& cursor_in_range(self.positions@, streams)
        &&& consumed_up_to(self.positions@, streams, last_of(self.seen@))
        &&& is_examined(streams, self.seen@)
        &&& is_kept(streams, tombstones, boundary, self.seen@, self.kept@)
    }

    /// No input has a row left.
    pub closed spec fn is_exhausted(self, streams: Seq<Seq<i64>>) -> bool {
        forall|v: int|
            0 <= v < streams.len() ==> (#[trigger] self.positions@[v]) == streams[v].len()
    }

    /// Rows that are left, copies counted.
    pub closed spec fn left(self, streams: Seq<Seq<i64>>) -> int {
        total_left(self.positions@, streams, streams.len() as int)
    }

    pub fn new(
        volumes: &Vec<SegmentVolume>,
        tombstones: &FxHashMap<i64, u64>,
        boundary: Option<u64>,
    ) -> (walk: Self)
        requires
            streams_ascend(id_streams(volumes@)),
        ensures
            walk.wf(id_streams(volumes@), tombstones@, boundary),
            walk.seen().len() == 0,
            walk.kept().len() == 0,
    {
        let mut positions: Vec<usize> = Vec::new();
        let mut v: usize = 0;
        while v < volumes.len()
            invariant
                0 <= v <= volumes@.len(),
                positions@.len() == v,
                forall|w: int| 0 <= w < v ==> positions@[w] == 0,
            decreases volumes@.len() - v,
        {
            positions.push(0);
            v = v + 1;
        }
        MergeWalk { positions, seen: Ghost(Seq::empty()), kept: Ghost(Seq::empty()) }
    }

    /// Whether a row is left to examine.
    pub fn has_next(&self, volumes: &Vec<SegmentVolume>) -> (r: bool)
        requires
            cursor_in_range(self.cursor(), id_streams(volumes@)),
        ensures
            r == !self.is_exhausted(id_streams(volumes@)),
    {
        let mut v: usize = 0;
        while v < volumes.len()
            invariant
                0 <= v <= volumes@.len(),
                cursor_in_range(self.positions@, id_streams(volumes@)),
                forall|w: int|
                    0 <= w < v ==> (#[trigger] self.positions@[w]) == id_streams(volumes@)[w].len(),
            decreases volumes@.len() - v,
        {
            assert(id_streams(volumes@)[v as int] == volumes@[v as int].row_ids@);
            assert(self.positions@[v as int] <= id_streams(volumes@)[v as int].len());
            if self.positions[v] != volumes[v].row_ids.len() {
                return true;
            }
            v = v + 1;
        }
        false
    }

    /// Examines the least row that is left.
    pub fn take(
        &mut self,
        volumes: &Vec<SegmentVolume>,
        tombstones: &FxHashMap<i64, u64>,
        boundary: Option<u64>,
    ) -> (r: MergeStep)
        requires
            old(self).wf(id_streams(volumes@), tombstones@, boundary),
        ensures
            final(self).wf(id_streams(volumes@), tombstones@, boundary) || r is Unencodable,
            r is Exhausted <==> old(self).is_exhausted(id_streams(volumes@)),
            match r {
                MergeStep::Exhausted => {
                    &&& final(self).cursor() == old(self).cursor()
                    &&& final(self).seen() == old(self).seen()
                    &&& final(self).kept() == old(self).kept()
                    &&& final(self).is_exhausted(id_streams(volumes@))
                },
                MergeStep::Dropped => {
                    &&& final(self).seen().len() == old(self).seen().len() + 1
                    &&& final(self).seen().drop_last() == old(self).seen()
                    &&& suppressed(tombstones@, boundary, final(self).seen().last())
                    &&& final(self).kept() == old(self).kept()
                },
                MergeStep::Kept(x) => {
                    &&& final(self).seen() == old(self).seen().push(x.row_id)
                    &&& final(self).kept() == old(self).kept().push(x)
                },
                MergeStep::Unencodable(e) => exists|v: int, i: int, row_id: i64|
                    {
                        &&& #[trigger] unencodable_survivor(
                            id_streams(volumes@),
                            tombstones@,
                            boundary,
                            v,
                            i,
                            row_id,
                        )
                        &&& e@ == unencodable_error(v, i)
                    },
            },
            !(r is Exhausted) ==> 0 <= final(self).left(id_streams(volumes@)) < old(self).left(
                id_streams(volumes@),
            ),
    {
        let ghost streams = id_streams(volumes@);
        let ghost before = self.positions@;
        let ghost seen = self.seen@;
        let ghost kept = self.kept@;
        match next_merged_row(volumes, &mut self.positions) {
            None => {
                assert forall|w: int| 0 <= w < streams.len() implies (
                #[trigger] self.positions@[w]) == streams[w].len() by {
                    assert(streams[w] == volumes@[w].row_ids@);
                }
                MergeStep::Exhausted
            },
            Some(m) => {
                proof {
                    let last = last_of(seen);
                    let v = m.volume as int;
                    lemma_step_consumes(before, self.positions@, streams, last, v, m.row_id);
                    lemma_less_left(
                        before,
                        self.positions@,
                        streams,
                        streams.len() as int,
                        v,
                        m.row_id,
                    );
                    assert(before[v] < streams[v].len());
                    assert(holds(streams, v, before[v] as int, m.row_id));
                    lemma_examined_push(
                        streams,
                        before,
                        self.positions@,
                        seen,
                        m.row_id,
                    );
                    self.seen = Ghost(seen.push(m.row_id));
                }
                if is_suppressed(tombstones, boundary, m.row_id) {
                    proof {
                        lemma_kept_dropped(
                            streams,
                            tombstones@,
                            boundary,
                            seen,
                            m.row_id,
                            kept,
                        );
                        assert(self.seen@.drop_last() =~= seen);
                    }
                    return MergeStep::Dropped;
                }
                match CompactionRowRef::new(m.row_id, m.volume, m.row) {
                    Ok(row_ref) => {
                        proof {
                            self.kept = Ghost(kept.push(row_ref));
                            lemma_kept_push(
                                streams,
                                tombstones@,
                                boundary,
                                seen,
                                row_ref,
                                kept,
                            );
                        }
                        MergeStep::Kept(row_ref)
                    },
                    Err(error) => {
                        assert(unencodable_survivor(
                            streams,
                            tombstones@,
                            boundary,
                            m.volume as int,
                            m.row as int,
                            m.row_id,
                        ));
                        MergeStep::Unencodable(error)
                    },
                }
            },
        }
    }
}

pub proof fn lemma_walk_in_range(
    walk: MergeWalk,
    streams: Seq<Seq<i64>>,
    tombstones: Map<i64, u64>,
    boundary: Option<u64>,
)
    requires
        walk.wf(streams, tombstones, boundary),
    ensures
        cursor_in_range(walk.cursor(), streams),
{
}

/// A merge whose inputs are consumed is complete.
pub proof fn lemma_exhausted_walk_is_merge(
    walk: MergeWalk,
    streams: Seq<Seq<i64>>,
    tombstones: Map<i64, u64>,
    boundary: Option<u64>,
)
    requires
        walk.wf(streams, tombstones, boundary),
        walk.is_exhausted(streams),
    ensures
        is_merge_of(streams, tombstones, boundary, walk.kept()),
        forall|row_id: i64|
            walk.seen().contains(row_id) <==> #[trigger] is_held(streams, row_id),
{
    let seen = walk.seen();
    let kept = walk.kept();
    assert forall|v: int, i: int, row_id: i64| #[trigger]
        holds(streams, v, i, row_id) implies seen.contains(row_id) by {
        assert(walk.cursor()[v] == streams[v].len());
        assert(streams[v][i] == row_id);
    }
    assert forall|v: int, i: int, row_id: i64| #[trigger]
        holds(streams, v, i, row_id) && !suppressed(tombstones, boundary, row_id) implies exists|
        a: int,
    | 0 <= a < kept.len() && (#[trigger] kept[a]).row_id == row_id by {
        assert(seen.contains(row_id));
        let k = choose|k: int| 0 <= k < seen.len() && seen[k] == row_id;
        assert(!suppressed(tombstones, boundary, seen[k]));
    }
}

proof fn lemma_examined_push(
    streams: Seq<Seq<i64>>,
    before: Seq<usize>,
    after: Seq<usize>,
    seen: Seq<i64>,
    row_id: i64,
)
    requires
        is_examined(streams, seen),
        streams_ascend(streams),
        cursor_in_range(before, streams),
        consumed_up_to(before, streams, last_of(seen)),
        consumed_up_to(after, streams, Some(row_id)),
        last_of(seen) matches Some(bound) ==> bound < row_id,
        is_held(streams, row_id),
        advanced(before, streams, row_id, after),
    ensures
        is_examined(streams, seen.push(row_id)),
        consumed_up_to(after, streams, last_of(seen.push(row_id))),
{
    let next = seen.push(row_id);
    assert(next.last() == row_id);
    assert forall|i: int, j: int| 0 <= i < j < next.len() implies #[trigger] next[i]
        < #[trigger] next[j] by {
        if j == seen.len() {
            if i < seen.len() - 1 {
                assert(seen[i] < seen[seen.len() - 1]);
            }
        }
    }
    assert forall|v: int, i: int, id: i64| #[trigger]
        holds(streams, v, i, id) && id <= row_id implies next.contains(id) by {
        assert(streams[v][i] == id);
        assert(i < after[v]);
        if head_is(before, streams, v, row_id) && i == before[v] {
            assert(next[seen.len() as int] == id);
        } else {
            assert(i < before[v]);
            assert(seen.len() > 0 && id <= seen.last());
            assert(seen.contains(id));
            let k = choose|k: int| 0 <= k < seen.len() && seen[k] == id;
            assert(next[k] == id);
        }
    }
    assert forall|k: int| 0 <= k < next.len() implies is_held(streams, #[trigger] next[k]) by {
        if k < seen.len() {
            assert(next[k] == seen[k]);
        }
    }
}

proof fn lemma_kept_dropped(
    streams: Seq<Seq<i64>>,
    tombstones: Map<i64, u64>,
    boundary: Option<u64>,
    seen: Seq<i64>,
    row_id: i64,
    kept: Seq<CompactionRowRef>,
)
    requires
        is_kept(streams, tombstones, boundary, seen, kept),
        suppressed(tombstones, boundary, row_id),
    ensures
        is_kept(streams, tombstones, boundary, seen.push(row_id), kept),
{
    let next = seen.push(row_id);
    assert forall|a: int| 0 <= a < kept.len() implies next.contains(
        (#[trigger] kept[a]).row_id,
    ) by {
        let k = choose|k: int| 0 <= k < seen.len() && seen[k] == kept[a].row_id;
        assert(next[k] == kept[a].row_id);
    }
    assert forall|k: int|
        0 <= k < next.len() && !suppressed(tombstones, boundary, #[trigger] next[k]) implies exists|
        a: int,
    | 0 <= a < kept.len() && (#[trigger] kept[a]).row_id == next[k] by {
        assert(next[k] == seen[k]);
    }
}

proof fn lemma_kept_push(
    streams: Seq<Seq<i64>>,
    tombstones: Map<i64, u64>,
    boundary: Option<u64>,
    seen: Seq<i64>,
    row_ref: CompactionRowRef,
    kept: Seq<CompactionRowRef>,
)
    requires
        is_kept(streams, tombstones, boundary, seen, kept),
        strictly_ascending(seen.push(row_ref.row_id)),
        newest_copy(streams, row_ref.row_id, row_ref.volume as int, row_ref.row as int),
        !suppressed(tombstones, boundary, row_ref.row_id),
    ensures
        is_kept(
            streams,
            tombstones,
            boundary,
            seen.push(row_ref.row_id),
            kept.push(row_ref),
        ),
{
    let next = seen.push(row_ref.row_id);
    let more = kept.push(row_ref);
    assert forall|a: int| 0 <= a < more.len() implies next.contains(
        (#[trigger] more[a]).row_id,
    ) by {
        if a < kept.len() {
            assert(more[a] == kept[a]);
            let k = choose|k: int| 0 <= k < seen.len() && seen[k] == kept[a].row_id;
            assert(next[k] == kept[a].row_id);
        } else {
            assert(next[seen.len() as int] == row_ref.row_id);
        }
    }
    assert forall|a: int, b: int| 0 <= a < b < more.len() implies (#[trigger] more[a]).row_id < (
    #[trigger] more[b]).row_id by {
        if b == kept.len() {
            assert(more[a] == kept[a]);
            let k = choose|k: int| 0 <= k < seen.len() && seen[k] == kept[a].row_id;
            assert(next[k] < next[seen.len() as int]);
        }
    }
    assert forall|k: int|
        0 <= k < next.len() && !suppressed(tombstones, boundary, #[trigger] next[k]) implies exists|
        a: int,
    | 0 <= a < more.len() && (#[trigger] more[a]).row_id == next[k] by {
        if k < seen.len() {
            assert(next[k] == seen[k]);
            let a = choose|a: int| 0 <= a < kept.len() && (#[trigger] kept[a]).row_id == seen[k];
            assert(more[a].row_id == next[k]);
        } else {
            assert(more[kept.len() as int].row_id == next[k]);
        }
    }
    assert forall|a: int| 0 <= a < more.len() implies newest_copy(
        streams,
        (#[trigger] more[a]).row_id,
        more[a].volume as int,
        more[a].row as int,
    ) && !suppressed(tombstones, boundary, more[a].row_id) by {
        if a < kept.len() {
            assert(more[a] == kept[a]);
        }
    }
}

/// A complete merge has no survivor that could not be encoded.
proof fn lemma_merge_is_encodable(
    streams: Seq<Seq<i64>>,
    tombstones: Map<i64, u64>,
    boundary: Option<u64>,
    merged: Seq<CompactionRowRef>,
)
    requires
        is_merge_of(streams, tombstones, boundary, merged),
        streams_ascend(streams),
    ensures
        !has_unencodable_survivor(streams, tombstones, boundary),
{
    if has_unencodable_survivor(streams, tombstones, boundary) {
        let (v, i, row_id) = choose|v: int, i: int, row_id: i64| #[trigger]
            unencodable_survivor(streams, tombstones, boundary, v, i, row_id);
        assert(holds(streams, v, i, row_id));
        let a = choose|a: int| 0 <= a < merged.len() && (#[trigger] merged[a]).row_id == row_id;
        let w = merged[a].volume as int;
        let j = merged[a].row as int;
        assert(newest_copy(streams, row_id, w, j));
        if w < v {
            assert(!holds(streams, w, j, row_id));
        } else if v < w {
            assert(!holds(streams, v, i, row_id));
        } else {
            assert(strictly_ascending(streams[v]));
            if i < j {
                assert(streams[v][i] < streams[v][j]);
            } else if j < i {
                assert(streams[v][j] < streams[v][i]);
            }
        }
    }
}

/// Merges sorted inputs, newest first. Of copies with one identity the newest
/// survives; suppressed rows are dropped whole, older copies included.
pub fn merge_compaction_rows(
    volumes: &Vec<SegmentVolume>,
    tombstones: &FxHashMap<i64, u64>,
    boundary: Option<u64>,
) -> (r: Result<Vec<CompactionRowRef>, Error>)
    requires
        streams_ascend(id_streams(volumes@)),
    ensures
        match r {
            Ok(merged) => is_merge_of(id_streams(volumes@), tombstones@, boundary, merged@),
            Err(e) => exists|v: int, i: int, row_id: i64|
                {
                    &&& #[trigger] unencodable_survivor(
                        id_streams(volumes@),
                        tombstones@,
                        boundary,
                        v,
                        i,
                        row_id,
                    )
                    &&& e@ == unencodable_error(v, i)
                },
        },
        r is Err <==> has_unencodable_survivor(id_streams(volumes@), tombstones@, boundary),
{
    let ghost streams = id_streams(volumes@);
    let mut walk = MergeWalk::new(volumes, tombstones, boundary);
    let mut merged: Vec<CompactionRowRef> = Vec::new();
    loop
        invariant
            streams == id_streams(volumes@),
            streams_ascend(streams),
            walk.wf(streams, tombstones@, boundary),
            merged@ == walk.kept(),
        decreases walk.left(streams),
    {
        match walk.take(volumes, tombstones, boundary) {
            MergeStep::Exhausted => {
                proof {
                    lemma_exhausted_walk_is_merge(walk, streams, tombstones@, boundary);
                    lemma_merge_is_encodable(streams, tombstones@, boundary, merged@);
                }
                return Ok(merged);
            },
            MergeStep::Dropped => {},
            MergeStep::Kept(row_ref) => {
                merged.push(row_ref);
            },
            MergeStep::Unencodable(error) => {
                return Err(error);
            },
        }
    }
}

/// Rows the cursor has not consumed in the first `n` inputs.
spec fn total_left(positions: Seq<usize>, streams: Seq<Seq<i64>>, n: int) -> int
    decreases n,
{
    if n <= 0 {
        0
    } else {
        total_left(positions, streams, n - 1) + if positions[n - 1] <= streams[n - 1].len() {
            streams[n - 1].len() - positions[n - 1]
        } else {
            0
        }
    }
}

proof fn lemma_less_left(
    before: Seq<usize>,
    after: Seq<usize>,
    streams: Seq<Seq<i64>>,
    n: int,
    v: int,
    row_id: i64,
)
    requires
        0 <= n <= streams.len(),
        cursor_in_range(before, streams),
        advanced(before, streams, row_id, after),
        head_is(before, streams, v, row_id),
    ensures
        0 <= total_left(after, streams, n) <= total_left(before, streams, n),
        v < n ==> total_left(after, streams, n) < total_left(before, streams, n),
    decreases n,
{
    if n > 0 {
        lemma_less_left(before, after, streams, n - 1, v, row_id);
        assert(after[n - 1] == if head_is(before, streams, n - 1, row_id) {
            before[n - 1] + 1
        } else {
            before[n - 1] as int
        });
    }
}

/// Each surviving row has exactly one reference in the merged stream.
pub proof fn law_merge_keeps_each_row_once(
    streams: Seq<Seq<i64>>,
    tombstones: Map<i64, u64>,
    boundary: Option<u64>,
    merged: Seq<CompactionRowRef>,
    a: int,
    b: int,
)
    requires
        is_merge_of(streams, tombstones, boundary, merged),
        0 <= a < merged.len(),
        0 <= b < merged.len(),
        merged[a].row_id == merged[b].row_id,
    ensures
        a == b,
{
}

/// Rows per output chunk: the tier target rounded down to whole row groups,
/// and at least one group.
pub open spec fn chunk_rows(target_rows: usize) -> int {
    spec_max(target_rows as int / ROW_GROUP_SIZE as int, 1) * ROW_GROUP_SIZE
}

pub fn compaction_chunk_rows(target_rows: usize) -> (r: usize)
    ensures
        r == chunk_rows(target_rows),
        r >= ROW_GROUP_SIZE,
{
    max_size(target_rows / ROW_GROUP_SIZE, 1) * ROW_GROUP_SIZE
}

/// Input bytes attributed to the rows examined so far.
pub open spec fn read_bytes_so_far(input_bytes: u64, examined_rows: u64, input_rows: u64) -> int {
    (input_bytes * spec_min(examined_rows as int, input_rows as int)) / spec_max(
        input_rows as int,
        1,
    )
}

pub fn accounted_read_bytes(input_bytes: u64, examined_rows: u64, input_rows: u64) -> (r: u64)
    ensures
        r == read_bytes_so_far(input_bytes, examined_rows, input_rows),
        r <= input_bytes,
{
    let rows: u64 = if examined_rows < input_rows {
        examined_rows
    } else {
        input_rows
    };
    let divisor: u64 = if input_rows < 1 {
        1
    } else {
        input_rows
    };
    proof {
        assert(0 <= input_bytes * rows <= input_bytes * divisor) by (nonlinear_arith)
            requires
                0 <= rows <= divisor,
                0 <= input_bytes,
        ;
        assert(input_bytes * divisor <= 0xffff_ffff_ffff_ffff * 0xffff_ffff_ffff_ffff)
            by (nonlinear_arith)
            requires
                0 <= input_bytes <= 0xffff_ffff_ffff_ffff,
                0 <= divisor <= 0xffff_ffff_ffff_ffff,
        ;
        assert((input_bytes * rows) / (divisor as int) <= input_bytes) by (nonlinear_arith)
            requires
                input_bytes * rows <= input_bytes * divisor,
                divisor > 0,
                0 <= input_bytes,
        ;
        assert(0 <= (input_bytes * rows) / (divisor as int)) by (nonlinear_arith)
            requires
                0 <= input_bytes * rows,
                divisor > 0,
        ;
    }
    let product: u128 = input_bytes as u128 * rows as u128;
    (product / divisor as u128) as u64
}

/// The engine re-checks its budgets once per examined row group.
pub fn is_accounting_point(examined_rows: u64) -> (r: bool)
    ensures
        r == (examined_rows % ROW_GROUP_SIZE as u64 == 0),
{
    examined_rows % ROW_GROUP_SIZE as u64 == 0
}

} // verus!
