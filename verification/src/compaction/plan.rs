//! Which segments a compaction rewrites, and how much it may rewrite at once.
use crate::fx::tombstone_get;
use crate::num::max_64;
use crate::num::max_size;
use crate::num::min_64;
use crate::num::sat64;
use crate::num::sat_size;
use crate::num::saturating_mul_64;
use crate::num::saturating_mul_size;
use crate::num::spec_max;
use crate::num::spec_min;
use rustc_hash::FxHashMap;
use vstd::prelude::*;

verus! {

/// Tier a published segment belongs to.
#[derive(Debug, Clone, Copy, PartialEq, Eq, Structural)]
pub enum SegmentLevel {
    Unleveled,
    L0,
    L1,
}

/// One entry of a table's segment manifest, oldest first.
#[derive(Debug, Clone, Copy, PartialEq, Eq, Structural)]
pub struct SegmentRecord {
    pub segment_id: u64,
    pub level: SegmentLevel,
    pub row_count: usize,
    /// Commit sequence at which the segment was sealed; zero where unknown.
    pub seal_seq: u64,
}

/// Resident metadata of one immutable segment.
#[derive(Debug)]
pub struct SegmentVolume {
    pub segment_id: u64,
    /// Ascending row identities.
    pub row_ids: Vec<i64>,
    /// Byte length of the DATA artifact, where the segment has one.
    pub data_bytes: Option<u64>,
    /// Byte length of the INDEX artifact, where the segment has one.
    pub index_bytes: Option<u64>,
}

pub open spec fn strictly_ascending(ids: Seq<i64>) -> bool {
    forall|i: int, j: int| 0 <= i < j < ids.len() ==> #[trigger] ids[i] < #[trigger] ids[j]
}

impl SegmentVolume {
    /// Row identities are sorted and none repeats.
    pub open spec fn wf(self) -> bool {
        strictly_ascending(self.row_ids@)
    }
}

pub open spec fn opt_bytes(bytes: Option<u64>) -> int {
    match bytes {
        Some(n) => n as int,
        None => 0,
    }
}

pub open spec fn physical_bytes(volume: SegmentVolume) -> int {
    sat64(opt_bytes(volume.data_bytes) + opt_bytes(volume.index_bytes))
}

/// Bytes a segment occupies on disk, DATA and INDEX together.
pub fn frozen_volume_physical_bytes(volume: &SegmentVolume) -> (bytes: u64)
    ensures
        bytes == physical_bytes(*volume),
{
    let data: u64 = match volume.data_bytes {
        Some(n) => n,
        None => 0,
    };
    let index: u64 = match volume.index_bytes {
        Some(n) => n,
        None => 0,
    };
    data.saturating_add(index)
}

/// A segment below its size tier may join an ordinary merge.
pub fn compaction_segment_is_mergeable(row_count: usize, target_volume_rows: usize) -> (r: bool)
    ensures
        r == (row_count < target_volume_rows),
{
    row_count < target_volume_rows
}

/// Row count at which a stable segment leaves the merge tier.
pub fn size_tier_target_rows(target_volume_rows: usize, compact_threshold: usize) -> (r: usize)
    ensures
        r == sat_size(target_volume_rows * spec_max(compact_threshold as int, 2)),
{
    saturating_mul_size(target_volume_rows, max_size(compact_threshold, 2))
}

/// Segments above this many rows are split.
pub open spec fn oversized_rows(target_rows: usize) -> int {
    sat_size(target_rows * 3) / 2
}

pub fn oversized_threshold(target_rows: usize) -> (r: usize)
    ensures
        r == oversized_rows(target_rows),
{
    saturating_mul_size(target_rows, 3) / 2
}

/// Fresh levels always merge; the stable level only below its tier.
pub open spec fn merges_ordinarily(segment: SegmentRecord, tier_target_rows: usize) -> bool {
    match segment.level {
        SegmentLevel::Unleveled => true,
        SegmentLevel::L0 => true,
        SegmentLevel::L1 => segment.row_count < tier_target_rows,
    }
}

pub fn is_ordinary_merge(segment: &SegmentRecord, tier_target_rows: usize) -> (r: bool)
    ensures
        r == merges_ordinarily(*segment, tier_target_rows),
{
    match segment.level {
        SegmentLevel::Unleveled => true,
        SegmentLevel::L0 => true,
        SegmentLevel::L1 => compaction_segment_is_mergeable(segment.row_count, tier_target_rows),
    }
}

/// `threshold` neighbouring segments from `start` on all merge ordinarily.
pub open spec fn mergeable_window(
    segments: Seq<SegmentRecord>,
    start: int,
    threshold: int,
    tier_target_rows: usize,
) -> bool {
    &&& 0 <= start
    &&& start + threshold <= segments.len()
    &&& forall|k: int|
        start <= k < start + threshold ==> merges_ordinarily(
            #[trigger] segments[k],
            tier_target_rows,
        )
}

pub open spec fn has_mergeable_window(
    segments: Seq<SegmentRecord>,
    threshold: int,
    tier_target_rows: usize,
) -> bool {
    exists|start: int| #[trigger]
        mergeable_window(segments, start, threshold, tier_target_rows)
}

fn has_mergeable_run(
    segments: &Vec<SegmentRecord>,
    compact_threshold: usize,
    tier_target_rows: usize,
) -> (r: bool)
    requires
        compact_threshold >= 1,
    ensures
        r == has_mergeable_window(segments@, compact_threshold as int, tier_target_rows),
{
    let mut consecutive: usize = 0;
    let mut i: usize = 0;
    while i < segments.len()
        invariant
            0 <= consecutive <= i <= segments@.len(),
            consecutive < compact_threshold,
            compact_threshold >= 1,
            forall|k: int|
                i - consecutive <= k < i ==> merges_ordinarily(
                    #[trigger] segments@[k],
                    tier_target_rows,
                ),
            consecutive < i ==> !merges_ordinarily(
                segments@[i - consecutive - 1],
                tier_target_rows,
            ),
            forall|start: int|
                start + compact_threshold <= i ==> !#[trigger] mergeable_window(
                    segments@,
                    start,
                    compact_threshold as int,
                    tier_target_rows,
                ),
        decreases segments@.len() - i,
    {
        if is_ordinary_merge(&segments[i], tier_target_rows) {
            consecutive = consecutive + 1;
            if consecutive >= compact_threshold {
                assert(mergeable_window(
                    segments@,
                    i + 1 - consecutive,
                    compact_threshold as int,
                    tier_target_rows,
                ));
                return true;
            }
        } else {
            consecutive = 0;
        }
        assert forall|start: int| start + compact_threshold <= i + 1 implies !#[trigger]
        mergeable_window(segments@, start, compact_threshold as int, tier_target_rows) by {
            if start >= 0 && start + compact_threshold == i + 1 {
                let k = i - consecutive;
                assert(!merges_ordinarily(segments@[k], tier_target_rows));
            }
        }
        i = i + 1;
    }
    false
}

/// What admission reads of one table.
#[derive(Debug)]
pub struct TableCompactionView {
    pub segments: Vec<SegmentRecord>,
    pub has_tombstones: bool,
    pub segment_count: usize,
    pub max_segment_row_count: usize,
}

pub open spec fn needs_compaction(
    table: TableCompactionView,
    compact_threshold: usize,
    tier_target_rows: usize,
) -> bool {
    ||| has_mergeable_window(table.segments@, compact_threshold as int, tier_target_rows)
    ||| table.has_tombstones && table.segment_count >= 1
    ||| table.max_segment_row_count > oversized_rows(tier_target_rows)
}

/// Whether a table has work for the compactor: enough neighbouring mergeable
/// segments, a tombstone that may dirty one, or a segment that must be split.
pub fn table_needs_compaction(
    table: &TableCompactionView,
    compact_threshold: usize,
    tier_target_rows: usize,
) -> (r: bool)
    requires
        compact_threshold >= 1,
    ensures
        r == needs_compaction(*table, compact_threshold, tier_target_rows),
{
    if has_mergeable_run(&table.segments, compact_threshold, tier_target_rows) {
        return true;
    }
    if table.has_tombstones && table.segment_count >= 1 {
        return true;
    }
    table.max_segment_row_count > oversized_threshold(tier_target_rows)
}

/// One segment the planner may take into a run.
#[derive(Debug, Clone, Copy, PartialEq, Eq, Structural)]
pub struct CompactionCandidate {
    pub manifest_index: usize,
    pub physical_bytes: u64,
    pub must_rewrite: bool,
}

/// A tombstone old enough that no snapshot needs the row it deletes.
pub open spec fn resolvable(commit_seq: u64, boundary: Option<u64>) -> bool {
    match boundary {
        None => true,
        Some(limit) => commit_seq < limit,
    }
}

pub open spec fn tombstoned_row(row_ids: Seq<i64>, tombstones: Map<i64, u64>) -> bool {
    exists|i: int| 0 <= i < row_ids.len() && tombstones.dom().contains(#[trigger] row_ids[i])
}

/// A row of the segment is deleted by a tombstone that a snapshot may not see.
pub open spec fn blocked_row(
    row_ids: Seq<i64>,
    tombstones: Map<i64, u64>,
    boundary: Option<u64>,
) -> bool {
    exists|i: int|
        0 <= i < row_ids.len() && tombstones.dom().contains(#[trigger] row_ids[i]) && !resolvable(
            tombstones[row_ids[i]],
            boundary,
        )
}

/// How the tombstones of a table touch one segment.
#[derive(Debug, Clone, Copy, PartialEq, Eq, Structural)]
pub enum TombstoneImpact {
    Clean,
    Dirty,
    Blocked,
}

pub open spec fn tombstone_impact_of(
    row_ids: Seq<i64>,
    tombstones: Map<i64, u64>,
    boundary: Option<u64>,
) -> TombstoneImpact {
    if blocked_row(row_ids, tombstones, boundary) {
        TombstoneImpact::Blocked
    } else if tombstoned_row(row_ids, tombstones) {
        TombstoneImpact::Dirty
    } else {
        TombstoneImpact::Clean
    }
}

/// Intersects a segment's rows with the table's tombstones.
pub fn tombstone_impact(
    row_ids: &Vec<i64>,
    tombstones: &FxHashMap<i64, u64>,
    boundary: Option<u64>,
) -> (r: TombstoneImpact)
    ensures
        r == tombstone_impact_of(row_ids@, tombstones@, boundary),
{
    let mut dirty: bool = false;
    let mut i: usize = 0;
    while i < row_ids.len()
        invariant
            0 <= i <= row_ids@.len(),
            dirty == exists|j: int|
                0 <= j < i && tombstones@.dom().contains(#[trigger] row_ids@[j]),
            forall|j: int|
                0 <= j < i && tombstones@.dom().contains(#[trigger] row_ids@[j]) ==> resolvable(
                    tombstones@[row_ids@[j]],
                    boundary,
                ),
        decreases row_ids@.len() - i,
    {
        let row_id: i64 = row_ids[i];
        match tombstone_get(tombstones, row_id) {
            None => {},
            Some(commit_seq) => {
                let blocked: bool = match boundary {
                    Some(limit) => commit_seq >= limit,
                    None => false,
                };
                if blocked {
                    assert(tombstones@.dom().contains(row_ids@[i as int]));
                    return TombstoneImpact::Blocked;
                }
                assert(tombstones@.dom().contains(row_ids@[i as int]));
                dirty = true;
            },
        }
        i = i + 1;
    }
    if dirty {
        TombstoneImpact::Dirty
    } else {
        TombstoneImpact::Clean
    }
}

/// Position of the loaded segment with a given identity.
pub open spec fn loaded_index(loaded: Seq<SegmentVolume>, segment_id: u64) -> Option<int>
    decreases loaded.len(),
{
    if loaded.len() == 0 {
        None
    } else if loaded[0].segment_id == segment_id {
        Some(0int)
    } else {
        match loaded_index(loaded.drop_first(), segment_id) {
            Some(i) => Some(i + 1),
            None => None,
        }
    }
}

proof fn lemma_loaded_index(loaded: Seq<SegmentVolume>, segment_id: u64, k: int)
    requires
        0 <= k <= loaded.len(),
        forall|j: int| 0 <= j < k ==> (#[trigger] loaded[j]).segment_id != segment_id,
        k < loaded.len() ==> loaded[k].segment_id == segment_id,
    ensures
        loaded_index(loaded, segment_id) == if k < loaded.len() {
            Some(k)
        } else {
            None
        },
    decreases loaded.len(),
{
    if loaded.len() > 0 && k > 0 {
        assert(loaded.drop_first().len() == loaded.len() - 1);
        lemma_loaded_index(loaded.drop_first(), segment_id, k - 1);
    }
}

/// Looks a loaded segment up by identity.
pub fn find_loaded(loaded: &Vec<SegmentVolume>, segment_id: u64) -> (r: Option<usize>)
    ensures
        (match r {
            Some(i) => Some(i as int),
            None => None,
        }) == loaded_index(loaded@, segment_id),
        r matches Some(i) ==> i < loaded@.len() && loaded@[i as int].segment_id == segment_id,
{
    let mut i: usize = 0;
    while i < loaded.len()
        invariant
            0 <= i <= loaded@.len(),
            forall|j: int| 0 <= j < i ==> (#[trigger] loaded@[j]).segment_id != segment_id,
        decreases loaded@.len() - i,
    {
        if loaded[i].segment_id == segment_id {
            proof {
                lemma_loaded_index(loaded@, segment_id, i as int);
            }
            return Some(i);
        }
        i = i + 1;
    }
    proof {
        lemma_loaded_index(loaded@, segment_id, i as int);
    }
    None
}

/// What the planner makes of one manifest entry, if anything.
pub open spec fn candidate_of(
    index: int,
    segment: SegmentRecord,
    loaded: Seq<SegmentVolume>,
    tombstones: Map<i64, u64>,
    boundary: Option<u64>,
    tier_target_rows: usize,
) -> Option<CompactionCandidate> {
    let sealed_late = match boundary {
        Some(limit) => segment.seal_seq > 0 && segment.seal_seq > limit,
        None => false,
    };
    match loaded_index(loaded, segment.segment_id) {
        None => None,
        Some(at) => {
            let impact = tombstone_impact_of(loaded[at].row_ids@, tombstones, boundary);
            let must_rewrite = segment.row_count > oversized_rows(tier_target_rows) || impact
                == TombstoneImpact::Dirty;
            if sealed_late || impact == TombstoneImpact::Blocked || !(merges_ordinarily(
                segment,
                tier_target_rows,
            ) || must_rewrite) {
                None
            } else {
                Some(
                    CompactionCandidate {
                        manifest_index: index as usize,
                        physical_bytes: physical_bytes(loaded[at]) as u64,
                        must_rewrite,
                    },
                )
            }
        },
    }
}

/// Candidates among the first `n` manifest entries, in manifest order.
pub open spec fn candidates_of(
    segments: Seq<SegmentRecord>,
    n: int,
    loaded: Seq<SegmentVolume>,
    tombstones: Map<i64, u64>,
    boundary: Option<u64>,
    tier_target_rows: usize,
) -> Seq<CompactionCandidate>
    decreases n,
{
    if n <= 0 {
        Seq::empty()
    } else {
        let earlier = candidates_of(
            segments,
            n - 1,
            loaded,
            tombstones,
            boundary,
            tier_target_rows,
        );
        match candidate_of(n - 1, segments[n - 1], loaded, tombstones, boundary, tier_target_rows) {
            Some(candidate) => earlier.push(candidate),
            None => earlier,
        }
    }
}

/// Collects the segments of one table that a compaction may take.
///
/// A segment stays out while a snapshot may still need it: when it was sealed
/// after the snapshot boundary, or when it owns a row whose tombstone the
/// snapshot does not see.
pub fn plan_candidates(
    segments: &Vec<SegmentRecord>,
    loaded: &Vec<SegmentVolume>,
    tombstones: &FxHashMap<i64, u64>,
    boundary: Option<u64>,
    tier_target_rows: usize,
) -> (out: Vec<CompactionCandidate>)
    ensures
        out@ == candidates_of(
            segments@,
            segments@.len() as int,
            loaded@,
            tombstones@,
            boundary,
            tier_target_rows,
        ),
{
    let oversized_at: usize = oversized_threshold(tier_target_rows);
    let mut out: Vec<CompactionCandidate> = Vec::new();
    let mut i: usize = 0;
    while i < segments.len()
        invariant
            0 <= i <= segments@.len(),
            oversized_at == oversized_rows(tier_target_rows),
            out@ == candidates_of(
                segments@,
                i as int,
                loaded@,
                tombstones@,
                boundary,
                tier_target_rows,
            ),
        decreases segments@.len() - i,
    {
        let segment: SegmentRecord = segments[i];
        let sealed_late: bool = match boundary {
            Some(limit) => segment.seal_seq > 0 && segment.seal_seq > limit,
            None => false,
        };
        if !sealed_late {
            if let Some(at) = find_loaded(loaded, segment.segment_id) {
                let impact: TombstoneImpact = tombstone_impact(
                    &loaded[at].row_ids,
                    tombstones,
                    boundary,
                );
                let ordinary: bool = is_ordinary_merge(&segment, tier_target_rows);
                let must_rewrite: bool = segment.row_count > oversized_at || impact
                    == TombstoneImpact::Dirty;
                if impact != TombstoneImpact::Blocked && (ordinary || must_rewrite) {
                    out.push(
                        CompactionCandidate {
                            manifest_index: i,
                            physical_bytes: frozen_volume_physical_bytes(&loaded[at]),
                            must_rewrite,
                        },
                    );
                }
            }
        }
        i = i + 1;
    }
    out
}

/// Bytes of the candidates `from..to`.
pub open spec fn run_bytes(candidates: Seq<CompactionCandidate>, from: int, to: int) -> int
    decreases to - from,
{
    if to <= from {
        0
    } else {
        run_bytes(candidates, from, to - 1) + candidates[to - 1].physical_bytes
    }
}

/// Candidates `from..to` are neighbours in the manifest.
pub open spec fn run_is_contiguous(
    candidates: Seq<CompactionCandidate>,
    from: int,
    to: int,
) -> bool {
    forall|k: int|
        from <= k < to - 1 ==> (#[trigger] candidates[k + 1]).manifest_index
            == candidates[k].manifest_index + 1
}

/// Candidates `from..to` fit one compaction job.
pub open spec fn run_fits(
    candidates: Seq<CompactionCandidate>,
    from: int,
    to: int,
    max_segments: int,
    max_bytes: int,
) -> bool {
    &&& 0 <= from <= to <= candidates.len()
    &&& run_is_contiguous(candidates, from, to)
    &&& to - from <= max_segments
    &&& sat64(run_bytes(candidates, from, to)) <= max_bytes
}

/// The longest fitting run from `from` ends at `to`.
pub open spec fn run_is_maximal(
    candidates: Seq<CompactionCandidate>,
    from: int,
    to: int,
    max_segments: int,
    max_bytes: int,
) -> bool {
    &&& run_fits(candidates, from, to, max_segments, max_bytes)
    &&& !run_fits(candidates, from, to + 1, max_segments, max_bytes)
}

/// A run is worth rewriting: it merges two segments or must rewrite one.
pub open spec fn run_has_work(candidates: Seq<CompactionCandidate>, from: int, to: int) -> bool {
    ||| to - from >= 2
    ||| exists|k: int| from <= k < to && (#[trigger] candidates[k]).must_rewrite
}

/// `to` ends the longest fitting run from `from`, and that run has work.
pub open spec fn run_is_useful(
    candidates: Seq<CompactionCandidate>,
    from: int,
    to: int,
    max_segments: int,
    max_bytes: int,
) -> bool {
    &&& run_is_maximal(candidates, from, to, max_segments, max_bytes)
    &&& run_has_work(candidates, from, to)
}

/// Manifest positions of the candidates `from..to`.
pub open spec fn run_indices(
    candidates: Seq<CompactionCandidate>,
    from: int,
    to: int,
) -> Seq<usize> {
    Seq::new((to - from) as nat, |k: int| candidates[from + k].manifest_index)
}

/// The selection: the first start whose longest fitting run has work, or
/// nothing where no start has one.
pub open spec fn is_selected_run(
    candidates: Seq<CompactionCandidate>,
    max_segments: int,
    max_bytes: int,
    selected: Seq<usize>,
) -> bool {
    if selected.len() == 0 {
        forall|from: int, to: int| !#[trigger]
            run_is_useful(candidates, from, to, max_segments, max_bytes)
    } else {
        exists|from: int, to: int| #[trigger]
            run_is_useful(candidates, from, to, max_segments, max_bytes) && selected == run_indices(
                candidates,
                from,
                to,
            ) && forall|earlier: int, end: int|
                earlier < from ==> !#[trigger] run_is_useful(
                    candidates,
                    earlier,
                    end,
                    max_segments,
                    max_bytes,
                )
    }
}

proof fn lemma_run_bytes_grow(candidates: Seq<CompactionCandidate>, from: int, a: int, b: int)
    requires
        from <= a <= b,
    ensures
        run_bytes(candidates, from, a) <= run_bytes(candidates, from, b),
    decreases b - a,
{
    if a < b {
        lemma_run_bytes_grow(candidates, from, a, b - 1);
    }
}

/// Fitting is closed under dropping candidates from the end.
proof fn lemma_run_fits_prefix(
    candidates: Seq<CompactionCandidate>,
    from: int,
    a: int,
    b: int,
    max_segments: int,
    max_bytes: int,
)
    requires
        run_fits(candidates, from, b, max_segments, max_bytes),
        from <= a <= b,
    ensures
        run_fits(candidates, from, a, max_segments, max_bytes),
{
    lemma_run_bytes_grow(candidates, from, a, b);
}

/// At most one end is maximal for a start.
proof fn lemma_maximal_unique(
    candidates: Seq<CompactionCandidate>,
    from: int,
    a: int,
    b: int,
    max_segments: int,
    max_bytes: int,
)
    requires
        run_is_maximal(candidates, from, a, max_segments, max_bytes),
        run_is_maximal(candidates, from, b, max_segments, max_bytes),
    ensures
        a == b,
{
    if a < b {
        lemma_run_fits_prefix(candidates, from, a + 1, b, max_segments, max_bytes);
    }
    if b < a {
        lemma_run_fits_prefix(candidates, from, b + 1, a, max_segments, max_bytes);
    }
}

/// Picks one bounded run of manifest neighbours.
///
/// Replacing segments that are not neighbours with one output could not keep
/// that output's recency relative to a segment between them.
pub fn select_bounded_compaction_run(
    candidates: &Vec<CompactionCandidate>,
    max_input_segments: usize,
    max_input_bytes: u64,
) -> (selected: Vec<usize>)
    ensures
        is_selected_run(
            candidates@,
            spec_max(max_input_segments as int, 1),
            spec_max(max_input_bytes as int, 1),
            selected@,
        ),
{
    let max_segments: usize = max_size(max_input_segments, 1);
    let max_bytes: u64 = max_64(max_input_bytes, 1);
    let ghost c = candidates@;
    let ghost ms = max_segments as int;
    let ghost mb = max_bytes as int;
    let mut start: usize = 0;
    while start < candidates.len()
        invariant
            c == candidates@,
            ms == max_segments,
            mb == max_bytes,
            ms >= 1,
            mb >= 1,
            ms == spec_max(max_input_segments as int, 1),
            mb == spec_max(max_input_bytes as int, 1),
            0 <= start <= candidates@.len(),
            forall|earlier: int, end: int|
                earlier < start ==> !#[trigger] run_is_useful(c, earlier, end, ms, mb),
        decreases candidates@.len() - start,
    {
        let mut selected: Vec<usize> = Vec::new();
        let mut selected_bytes: u64 = 0;
        let mut contains_rewrite: bool = false;
        let mut at: usize = start;
        let mut open: bool = true;
        while at < candidates.len() && open
            invariant
                c == candidates@,
                ms == max_segments,
                mb == max_bytes,
                ms >= 1,
                mb >= 1,
                start <= at <= candidates@.len(),
                start < candidates@.len(),
                run_fits(c, start as int, at as int, ms, mb),
                selected@ == run_indices(c, start as int, at as int),
                selected_bytes == sat64(run_bytes(c, start as int, at as int)),
                contains_rewrite == exists|k: int|
                    start <= k < at && (#[trigger] c[k]).must_rewrite,
                !open ==> at < candidates@.len() && !run_fits(
                    c,
                    start as int,
                    at + 1,
                    ms,
                    mb,
                ),
            decreases candidates@.len() - at, open as int,
        {
            let candidate: CompactionCandidate = candidates[at];
            let adjacent: bool = if at > start {
                let previous: usize = candidates[at - 1].manifest_index;
                previous < usize::MAX && candidate.manifest_index == previous + 1
            } else {
                true
            };
            let next_bytes: u64 = selected_bytes.saturating_add(candidate.physical_bytes);
            assert(next_bytes == sat64(run_bytes(c, start as int, at + 1)));
            if !adjacent || at - start >= max_segments || next_bytes > max_bytes {
                proof {
                    if !adjacent {
                        assert(c[at - 1 + 1].manifest_index != c[at - 1].manifest_index + 1);
                    }
                }
                open = false;
            } else {
                proof {
                    assert forall|k: int| start <= k < at + 1 - 1 implies (
                    #[trigger] c[k + 1]).manifest_index == c[k].manifest_index + 1 by {
                        if k + 1 < at {
                            assert(c[k + 1].manifest_index == c[k].manifest_index + 1);
                        }
                    }
                    assert(run_indices(c, start as int, at + 1) =~= run_indices(
                        c,
                        start as int,
                        at as int,
                    ).push(c[at as int].manifest_index));
                }
                selected.push(candidate.manifest_index);
                selected_bytes = next_bytes;
                contains_rewrite = contains_rewrite || candidate.must_rewrite;
                assert(c[at as int] == candidate);
                at = at + 1;
            }
        }
        assert(run_is_maximal(c, start as int, at as int, ms, mb));
        if contains_rewrite || selected.len() >= 2 {
            assert(run_is_useful(c, start as int, at as int, ms, mb));
            return selected;
        }
        proof {
            assert forall|earlier: int, end: int| earlier < start + 1 implies !#[trigger]
            run_is_useful(c, earlier, end, ms, mb) by {
                if earlier == start && run_is_useful(c, earlier, end, ms, mb) {
                    lemma_maximal_unique(c, start as int, at as int, end, ms, mb);
                }
            }
        }
        start = start + 1;
    }
    proof {
        assert forall|from: int, to: int| !#[trigger] run_is_useful(c, from, to, ms, mb) by {
            if from >= c.len() && run_is_useful(c, from, to, ms, mb) {
            }
        }
    }
    Vec::new()
}

/// Start of the first run from `from` on that has work; the end where none has.
pub open spec fn first_useful_start(
    candidates: Seq<CompactionCandidate>,
    from: int,
    max_segments: int,
    max_bytes: int,
) -> int
    decreases candidates.len() - from,
{
    if from >= candidates.len() || exists|to: int| #[trigger]
        run_is_useful(candidates, from, to, max_segments, max_bytes) {
        from
    } else {
        first_useful_start(candidates, from + 1, max_segments, max_bytes)
    }
}

proof fn lemma_first_useful(
    candidates: Seq<CompactionCandidate>,
    i: int,
    from: int,
    to: int,
    max_segments: int,
    max_bytes: int,
)
    requires
        0 <= i <= from,
        run_is_useful(candidates, from, to, max_segments, max_bytes),
        forall|earlier: int, end: int|
            earlier < from ==> !#[trigger] run_is_useful(
                candidates,
                earlier,
                end,
                max_segments,
                max_bytes,
            ),
    ensures
        first_useful_start(candidates, i, max_segments, max_bytes) == from,
    decreases from - i,
{
    if i < from {
        lemma_first_useful(candidates, i + 1, from, to, max_segments, max_bytes);
    }
}

/// A selected run replaces neighbouring segments only, at most as many and of
/// at most as many bytes as allowed. It starts where the first run with work
/// does.
pub proof fn law_selected_run_is_bounded(
    candidates: Seq<CompactionCandidate>,
    max_segments: int,
    max_bytes: int,
    selected: Seq<usize>,
)
    requires
        is_selected_run(candidates, max_segments, max_bytes, selected),
        selected.len() > 0,
    ensures
        selected.len() <= max_segments,
        forall|k: int|
            0 <= k < selected.len() - 1 ==> (#[trigger] selected[k + 1]) == selected[k] + 1,
        ({
            let from = first_useful_start(candidates, 0, max_segments, max_bytes);
            &&& 0 <= from
            &&& from + selected.len() <= candidates.len()
            &&& selected == run_indices(candidates, from, from + selected.len())
            &&& sat64(run_bytes(candidates, from, from + selected.len())) <= max_bytes
        }),
{
    let (from, to) = choose|from: int, to: int| #[trigger]
        run_is_useful(candidates, from, to, max_segments, max_bytes) && selected == run_indices(
            candidates,
            from,
            to,
        ) && forall|earlier: int, end: int|
            earlier < from ==> !#[trigger] run_is_useful(
                candidates,
                earlier,
                end,
                max_segments,
                max_bytes,
            );
    assert(to == from + selected.len());
    assert forall|k: int| 0 <= k < selected.len() - 1 implies (#[trigger] selected[k + 1])
        == selected[k] + 1 by {
        assert(candidates[from + k + 1].manifest_index == candidates[from + k].manifest_index + 1);
    }
    lemma_first_useful(candidates, 0, from, to, max_segments, max_bytes);
}

/// Input bytes that one job may read: the configured limits, and what the
/// time budget leaves when half of the I/O is output.
pub open spec fn input_budget(
    max_input_bytes: u64,
    max_output_bytes: u64,
    time_budget_ms: u64,
    io_bytes_per_sec: u64,
) -> int {
    let limited = if time_budget_ms == 0 || io_bytes_per_sec == 0 {
        u64::MAX as int
    } else {
        spec_max(sat64(io_bytes_per_sec * time_budget_ms) / 2000, 1)
    };
    spec_min(
        spec_min(spec_max(max_input_bytes as int, 1), spec_max(max_output_bytes as int, 1)),
        limited,
    )
}

pub fn effective_compaction_input_budget(
    max_input_bytes: u64,
    max_output_bytes: u64,
    time_budget_ms: u64,
    io_bytes_per_sec: u64,
) -> (r: u64)
    ensures
        r == input_budget(max_input_bytes, max_output_bytes, time_budget_ms, io_bytes_per_sec),
{
    let limited: u64 = if time_budget_ms == 0 || io_bytes_per_sec == 0 {
        u64::MAX
    } else {
        max_64(saturating_mul_64(io_bytes_per_sec, time_budget_ms) / 2000, 1)
    };
    min_64(min_64(max_64(max_input_bytes, 1), max_64(max_output_bytes, 1)), limited)
}

/// A job never reads more than either configured limit, and never nothing.
pub proof fn law_input_budget_is_bounded(
    max_input_bytes: u64,
    max_output_bytes: u64,
    time_budget_ms: u64,
    io_bytes_per_sec: u64,
)
    ensures
        1 <= input_budget(max_input_bytes, max_output_bytes, time_budget_ms, io_bytes_per_sec),
        input_budget(max_input_bytes, max_output_bytes, time_budget_ms, io_bytes_per_sec)
            <= spec_max(max_input_bytes as int, 1),
        input_budget(max_input_bytes, max_output_bytes, time_budget_ms, io_bytes_per_sec)
            <= spec_max(max_output_bytes as int, 1),
{
}

pub open spec fn io_rate_per_job(total_bytes_per_sec: u64, concurrent_jobs: usize) -> int {
    if total_bytes_per_sec == 0 {
        0
    } else {
        spec_max(total_bytes_per_sec as int / spec_max(concurrent_jobs as int, 1), 1)
    }
}

/// Share of the process-wide I/O rate that one of several jobs gets. Zero
/// means unlimited and stays zero.
pub fn compaction_io_rate_per_job(total_bytes_per_sec: u64, concurrent_jobs: usize) -> (r: u64)
    ensures
        r == io_rate_per_job(total_bytes_per_sec, concurrent_jobs),
{
    if total_bytes_per_sec == 0 {
        return 0;
    }
    let jobs: u64 = max_size(concurrent_jobs, 1) as u64;
    max_64(total_bytes_per_sec / jobs, 1)
}

} // verus!
