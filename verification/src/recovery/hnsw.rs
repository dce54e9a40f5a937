//! Filling vector indexes from cold segments.
//!
//! A vector search cannot fall back to zone maps, so its graph has to hold
//! cold rows too. Segments come newest first: the first version of a row
//! that turns up is the one that counts.
use crate::error::Error;
use crate::error::ErrorView;
use crate::fx::row_set;
use crate::fx::row_set_contains;
use crate::fx::row_set_insert;
use crate::schema::IndexInfo;
use crate::schema::IndexType;
use crate::sort::is_sorted;
use crate::sort::lemma_permutation;
use crate::sort::sorted;
use crate::text::decimal;
use crate::text::decimal_digits;
use crate::value::Datum;
use crate::value::Row;
use rustc_hash::FxHashSet;
use vstd::prelude::*;
use vstd::string::StringExecFns;

verus! {

/// Entries at which a batch is handed to its index.
pub const HNSW_FLUSH_THRESHOLD: usize = 8192;

/// Whether an index takes cold rows: a complete vector index with columns.
pub open spec fn takes_cold_rows(index: IndexInfo) -> bool {
    &&& index.index_type == IndexType::Hnsw
    &&& index.predicate_columns is None
    &&& index.column_ids@.len() > 0
}

/// Positions below `n` of the indexes that take cold rows.
pub open spec fn cold_indexes(indexes: Seq<IndexInfo>, n: int) -> Seq<usize>
    decreases n,
{
    if n <= 0 {
        Seq::empty()
    } else if takes_cold_rows(indexes[n - 1]) {
        cold_indexes(indexes, n - 1).push((n - 1) as usize)
    } else {
        cold_indexes(indexes, n - 1)
    }
}

/// Positions of the indexes that take cold rows.
pub fn select_cold_indexes(indexes: &Vec<IndexInfo>) -> (out: Vec<usize>)
    ensures
        out@ == cold_indexes(indexes@, indexes@.len() as int),
{
    let mut out: Vec<usize> = Vec::new();
    let mut i: usize = 0;
    while i < indexes.len()
        invariant
            0 <= i <= indexes@.len(),
            out@ == cold_indexes(indexes@, i as int),
        decreases indexes@.len() - i,
    {
        if indexes[i].index_type == IndexType::Hnsw && indexes[i].predicate_columns.is_none()
            && indexes[i].column_ids.len() > 0 {
            out.push(i);
        }
        i = i + 1;
    }
    out
}

/// A row with the values of an index, by key.
#[derive(Debug)]
pub struct HnswEntry {
    pub row_id: i64,
    pub keys: Vec<u64>,
}

pub struct EntryView {
    pub row_id: i64,
    pub keys: Seq<u64>,
}

impl View for HnswEntry {
    type V = EntryView;

    open spec fn view(&self) -> EntryView {
        EntryView { row_id: self.row_id, keys: self.keys@ }
    }
}

/// A row of a segment, holding the projected columns.
#[derive(Debug)]
pub struct ProjectedRow {
    pub row_id: i64,
    pub values: Row,
}

/// One index being filled.
#[derive(Debug)]
struct Target {
    columns: Vec<usize>,
    seen: FxHashSet<i64>,
    batch: Vec<HnswEntry>,
}

/// What one index has seen and not handed over yet.
#[verifier::ext_equal]
pub struct TargetView {
    pub columns: Seq<usize>,
    pub seen: Set<i64>,
    pub batch: Seq<EntryView>,
}

impl View for Target {
    type V = TargetView;

    closed spec fn view(&self) -> TargetView {
        TargetView {
            columns: self.columns@,
            seen: self.seen@,
            batch: self.batch@.map_values(|e: HnswEntry| e@),
        }
    }
}

/// Position of a column among the projected ones.
pub open spec fn projected_at(projected: Seq<usize>, column: usize, i: int) -> bool {
    0 <= i < projected.len() && projected[i] == column
}

/// The value that a projected row holds for a column.
pub open spec fn projected_value(
    projected: Seq<usize>,
    row: Seq<Datum>,
    column: usize,
) -> Option<Datum> {
    if exists|i: int| #[trigger] projected_at(projected, column, i) {
        let i = choose|i: int| #[trigger] projected_at(projected, column, i);
        if i < row.len() {
            Some(row[i])
        } else {
            None
        }
    } else {
        None
    }
}

/// Whether a row has a value for a column.
pub open spec fn has_value(projected: Seq<usize>, row: Seq<Datum>, column: usize) -> bool {
    projected_value(projected, row, column) matches Some(v) && !v.is_null
}

/// Whether a row has a value for every column of an index.
pub open spec fn is_complete(projected: Seq<usize>, row: Seq<Datum>, columns: Seq<usize>) -> bool {
    forall|k: int| 0 <= k < columns.len() ==> has_value(projected, row, #[trigger] columns[k])
}

pub open spec fn entry_of(projected: Seq<usize>, row: ProjectedRow, columns: Seq<usize>) -> EntryView {
    EntryView {
        row_id: row.row_id,
        keys: columns.map_values(
            |c: usize| projected_value(projected, row.values@, c)->Some_0.key,
        ),
    }
}

/// An index after one row. The row counts as seen even where it lacks a
/// value: an older version of it must not come up instead.
pub open spec fn after_row(
    target: TargetView,
    projected: Seq<usize>,
    row: ProjectedRow,
) -> TargetView {
    if target.seen.contains(row.row_id) {
        target
    } else if is_complete(projected, row.values@, target.columns) {
        TargetView {
            seen: target.seen.insert(row.row_id),
            batch: target.batch.push(entry_of(projected, row, target.columns)),
            ..target
        }
    } else {
        TargetView { seen: target.seen.insert(row.row_id), ..target }
    }
}

/// An index after the first `n` rows of a segment, without skipped ones.
pub open spec fn after_rows(
    target: TargetView,
    projected: Seq<usize>,
    rows: Seq<ProjectedRow>,
    skipped: Set<i64>,
    n: int,
) -> TargetView
    decreases n,
{
    if n <= 0 {
        target
    } else {
        let before = after_rows(target, projected, rows, skipped, n - 1);
        if skipped.contains(rows[n - 1].row_id) {
            before
        } else {
            after_row(before, projected, rows[n - 1])
        }
    }
}

/// Vector indexes of one table being filled from its segments.
#[derive(Debug)]
pub struct HnswBackfill {
    projected: Vec<usize>,
    targets: Vec<Target>,
}

/// Strictly ascending positions.
pub open spec fn ascending_positions(s: Seq<usize>) -> bool {
    forall|i: int, j: int| 0 <= i < j < s.len() ==> #[trigger] s[i] < #[trigger] s[j]
}

/// Whether a column belongs to one of the indexes.
pub open spec fn is_indexed(columns: Seq<Vec<usize>>, n: int, c: usize) -> bool {
    exists|j: int| 0 <= j < n && (#[trigger] columns[j])@.contains(c)
}

/// Rows that every index already covers.
pub open spec fn covered_by_all(covered: Seq<FxHashSet<i64>>, row_id: i64) -> bool {
    covered.len() > 0 && forall|j: int|
        0 <= j < covered.len() ==> (#[trigger] covered[j])@.contains(row_id)
}

/// Adds the hot rows to what an index covers.
pub fn seed_coverage(indexed: &Vec<i64>, hot_rows: &Vec<i64>) -> (covered: FxHashSet<i64>)
    ensures
        forall|x: i64|
            covered@.contains(x) <==> indexed@.contains(x) || hot_rows@.contains(x),
{
    let mut covered: FxHashSet<i64> = row_set();
    let mut i: usize = 0;
    while i < indexed.len()
        invariant
            0 <= i <= indexed@.len(),
            forall|x: i64| #[trigger]
                covered@.contains(x) <==> exists|k: int| 0 <= k < i && #[trigger] indexed@[k] == x,
        decreases indexed@.len() - i,
    {
        let ghost before = covered@;
        row_set_insert(&mut covered, indexed[i]);
        assert forall|x: i64| #[trigger]
            covered@.contains(x) <==> exists|k: int|
                0 <= k < i + 1 && #[trigger] indexed@[k] == x by {
            if covered@.contains(x) && before.contains(x) {
                let k = choose|k: int| 0 <= k < i && #[trigger] indexed@[k] == x;
                assert(indexed@[k] == x);
            }
        }
        i = i + 1;
    }
    let ghost base = covered@;
    assert forall|x: i64| base.contains(x) <==> indexed@.contains(x) by {
        if indexed@.contains(x) {
            let k = choose|k: int| 0 <= k < indexed@.len() && indexed@[k] == x;
            assert(indexed@[k] == x);
        }
    }
    let mut h: usize = 0;
    while h < hot_rows.len()
        invariant
            0 <= h <= hot_rows@.len(),
            forall|x: i64| base.contains(x) <==> indexed@.contains(x),
            forall|x: i64| #[trigger]
                covered@.contains(x) <==> base.contains(x) || exists|k: int|
                    0 <= k < h && #[trigger] hot_rows@[k] == x,
        decreases hot_rows@.len() - h,
    {
        let ghost before = covered@;
        row_set_insert(&mut covered, hot_rows[h]);
        assert forall|x: i64| #[trigger]
            covered@.contains(x) <==> base.contains(x) || exists|k: int|
                0 <= k < h + 1 && #[trigger] hot_rows@[k] == x by {
            if covered@.contains(x) && before.contains(x) && !base.contains(x) {
                let k = choose|k: int| 0 <= k < h && #[trigger] hot_rows@[k] == x;
                assert(hot_rows@[k] == x);
            }
        }
        h = h + 1;
    }
    assert forall|x: i64| covered@.contains(x) <==> indexed@.contains(x) || hot_rows@.contains(
        x,
    ) by {
        if hot_rows@.contains(x) {
            let k = choose|k: int| 0 <= k < hot_rows@.len() && hot_rows@[k] == x;
            assert(hot_rows@[k] == x);
        }
    }
    covered
}

/// Of the given rows, those that every index already covers. No scan has to
/// bring them up.
pub fn common_coverage(candidates: &Vec<i64>, covered: &Vec<FxHashSet<i64>>) -> (out: FxHashSet<
    i64,
>)
    ensures
        forall|x: i64|
            out@.contains(x) <==> candidates@.contains(x) && covered_by_all(covered@, x),
{
    let mut out: FxHashSet<i64> = row_set();
    if covered.len() == 0 {
        return out;
    }
    let mut i: usize = 0;
    while i < candidates.len()
        invariant
            0 <= i <= candidates@.len(),
            covered@.len() > 0,
            forall|x: i64| #[trigger]
                out@.contains(x) <==> covered_by_all(covered@, x) && exists|k: int|
                    0 <= k < i && #[trigger] candidates@[k] == x,
        decreases candidates@.len() - i,
    {
        let row_id: i64 = candidates[i];
        let mut everywhere: bool = true;
        let mut j: usize = 0;
        while j < covered.len()
            invariant
                0 <= j <= covered@.len(),
                everywhere == forall|m: int|
                    0 <= m < j ==> (#[trigger] covered@[m])@.contains(row_id),
            decreases covered@.len() - j,
        {
            if !row_set_contains(&covered[j], row_id) {
                everywhere = false;
                assert(!covered@[j as int]@.contains(row_id));
            }
            j = j + 1;
        }
        let ghost before = out@;
        if everywhere {
            row_set_insert(&mut out, row_id);
        }
        assert forall|x: i64| #[trigger]
            out@.contains(x) <==> covered_by_all(covered@, x) && exists|k: int|
                0 <= k < i + 1 && #[trigger] candidates@[k] == x by {
            if before.contains(x) {
                let k = choose|k: int| 0 <= k < i && #[trigger] candidates@[k] == x;
                assert(candidates@[k] == x);
            }
            if x == row_id {
                assert(candidates@[i as int] == x);
                assert(everywhere == covered_by_all(covered@, x));
            }
        }
        i = i + 1;
    }
    assert forall|x: i64| out@.contains(x) <==> candidates@.contains(x) && covered_by_all(
        covered@,
        x,
    ) by {
        if candidates@.contains(x) {
            let k = choose|k: int| 0 <= k < candidates@.len() && candidates@[k] == x;
            assert(candidates@[k] == x);
        }
    }
    out
}

fn unique_positions(raw: Vec<usize>) -> (out: Vec<usize>)
    ensures
        ascending_positions(out@),
        forall|c: usize| out@.contains(c) <==> raw@.contains(c),
{
    let ghost all = raw@;
    let ordered: Vec<usize> = sorted(raw);
    let mut out: Vec<usize> = Vec::new();
    let mut i: usize = 0;
    while i < ordered.len()
        invariant
            0 <= i <= ordered@.len(),
            is_sorted(ordered@),
            ascending_positions(out@),
            i > 0 ==> out@.len() > 0 && out@[out@.len() - 1] == ordered@[i - 1],
            i == 0 ==> out@.len() == 0,
            forall|k: int| 0 <= k < i ==> out@.contains(#[trigger] ordered@[k]),
            forall|k: int| 0 <= k < out@.len() ==> ordered@.contains(#[trigger] out@[k]),
        decreases ordered@.len() - i,
    {
        let repeated: bool = out.len() > 0 && out[out.len() - 1] == ordered[i];
        if !repeated {
            let ghost before = out@;
            out.push(ordered[i]);
            proof {
                if i > 0 {
                    assert(crate::sort::SortKey::leq(ordered@[i - 1], ordered@[i as int]));
                }
                assert(ordered@.contains(ordered@[i as int]));
                assert(out@[before.len() as int] == ordered@[i as int]);
                assert forall|k: int| 0 <= k < i + 1 implies out@.contains(
                    #[trigger] ordered@[k],
                ) by {
                    if k < i {
                        assert(before.contains(ordered@[k]));
                        let m = choose|m: int| 0 <= m < before.len() && before[m] == ordered@[k];
                        assert(out@[m] == ordered@[k]);
                    }
                }
            }
        }
        i = i + 1;
    }
    proof {
        lemma_permutation(ordered@, all);
        assert forall|x: usize| out@.contains(x) <==> all.contains(x) by {
            if out@.contains(x) {
                let k = choose|k: int| 0 <= k < out@.len() && out@[k] == x;
                assert(ordered@.contains(out@[k]));
            }
            if all.contains(x) {
                assert(ordered@.contains(x));
                let k = choose|k: int| 0 <= k < ordered@.len() && ordered@[k] == x;
                assert(out@.contains(ordered@[k]));
            }
        }
    }
    out
}

/// The columns that a scan has to bring up: those of all indexes, ascending.
pub fn projected_columns(columns: &Vec<Vec<usize>>) -> (out: Vec<usize>)
    ensures
        ascending_positions(out@),
        forall|c: usize| out@.contains(c) <==> is_indexed(columns@, columns@.len() as int, c),
{
    let mut all: Vec<usize> = Vec::new();
    let mut j: usize = 0;
    while j < columns.len()
        invariant
            0 <= j <= columns@.len(),
            forall|c: usize| #[trigger] all@.contains(c) <==> is_indexed(columns@, j as int, c),
        decreases columns@.len() - j,
    {
        let ghost before = all@;
        let mut k: usize = 0;
        while k < columns[j as usize].len()
            invariant
                0 <= j < columns@.len(),
                0 <= k <= columns@[j as int]@.len(),
                all@ == before + columns@[j as int]@.take(k as int),
            decreases columns@[j as int]@.len() - k,
        {
            all.push(columns[j][k]);
            k = k + 1;
            assert(columns@[j as int]@.take(k as int) =~= columns@[j as int]@.take(k - 1).push(
                columns@[j as int]@[k - 1],
            ));
        }
        let ghost added = columns@[j as int]@;
        assert(added.take(k as int) =~= added);
        assert forall|c: usize| #[trigger] all@.contains(c) <==> is_indexed(
            columns@,
            j + 1,
            c,
        ) by {
            if all@.contains(c) {
                let m = choose|m: int| 0 <= m < all@.len() && all@[m] == c;
                if m < before.len() {
                    assert(before[m] == c);
                    assert(before.contains(c));
                    let x = choose|x: int| 0 <= x < j && (#[trigger] columns@[x])@.contains(c);
                    assert(columns@[x]@.contains(c));
                } else {
                    assert(added[m - before.len()] == c);
                    assert(columns@[j as int]@.contains(c));
                }
            }
            if is_indexed(columns@, j + 1, c) {
                let x = choose|x: int| 0 <= x < j + 1 && (#[trigger] columns@[x])@.contains(c);
                if x < j {
                    assert(is_indexed(columns@, j as int, c));
                    assert(before.contains(c));
                    let m = choose|m: int| 0 <= m < before.len() && before[m] == c;
                    assert(all@[m] == c);
                } else {
                    let m = choose|m: int| 0 <= m < added.len() && added[m] == c;
                    assert(all@[before.len() + m] == c);
                }
            }
        }
        j = j + 1;
    }
    unique_positions(all)
}

impl HnswBackfill {
    pub closed spec fn columns(self) -> Seq<usize> {
        self.projected@
    }

    pub closed spec fn target(self, j: int) -> TargetView {
        self.targets@[j]@
    }

    pub closed spec fn count(self) -> nat {
        self.targets@.len()
    }

    pub closed spec fn wf(self) -> bool {
        ascending_positions(self.projected@)
    }

    /// Starts with what each index covers already.
    pub fn new(columns: Vec<Vec<usize>>, covered: Vec<FxHashSet<i64>>) -> (r: Self)
        requires
            columns@.len() == covered@.len(),
        ensures
            r.wf(),
            r.count() == columns@.len(),
            ascending_positions(r.columns()),
            forall|c: usize|
                r.columns().contains(c) <==> is_indexed(columns@, columns@.len() as int, c),
            forall|j: int|
                0 <= j < columns@.len() ==> #[trigger] r.target(j) == (TargetView {
                    columns: columns@[j]@,
                    seen: covered@[j]@,
                    batch: Seq::empty(),
                }),
    {
        let projected: Vec<usize> = projected_columns(&columns);
        let ghost all_columns = columns@;
        let ghost all_covered = covered@;
        let mut columns: Vec<Vec<usize>> = columns;
        let mut covered: Vec<FxHashSet<i64>> = covered;
        let mut reversed: Vec<Target> = Vec::new();
        while columns.len() > 0
            invariant
                columns@.len() == covered@.len(),
                columns@.len() + reversed@.len() == all_columns.len(),
                all_columns.len() == all_covered.len(),
                columns@ == all_columns.take(columns@.len() as int),
                covered@ == all_covered.take(covered@.len() as int),
                forall|k: int|
                    0 <= k < reversed@.len() ==> (#[trigger] reversed@[k])@ == (TargetView {
                        columns: all_columns[all_columns.len() - 1 - k]@,
                        seen: all_covered[all_columns.len() - 1 - k]@,
                        batch: Seq::empty(),
                    }),
            decreases columns@.len(),
        {
            let own: Vec<usize> = columns.pop().unwrap();
            let seen: FxHashSet<i64> = covered.pop().unwrap();
            let target = Target { columns: own, seen, batch: Vec::new() };
            assert(target@.batch =~= Seq::<EntryView>::empty());
            reversed.push(target);
            assert(columns@ =~= all_columns.take(columns@.len() as int));
            assert(covered@ =~= all_covered.take(covered@.len() as int));
        }
        let mut targets: Vec<Target> = Vec::new();
        while reversed.len() > 0
            invariant
                reversed@.len() + targets@.len() == all_columns.len(),
                forall|k: int|
                    0 <= k < reversed@.len() ==> (#[trigger] reversed@[k])@ == (TargetView {
                        columns: all_columns[all_columns.len() - 1 - k]@,
                        seen: all_covered[all_columns.len() - 1 - k]@,
                        batch: Seq::empty(),
                    }),
                forall|k: int|
                    0 <= k < targets@.len() ==> (#[trigger] targets@[k])@ == (TargetView {
                        columns: all_columns[k]@,
                        seen: all_covered[k]@,
                        batch: Seq::empty(),
                    }),
            decreases reversed@.len(),
        {
            let target: Target = reversed.pop().unwrap();
            targets.push(target);
        }
        HnswBackfill { projected, targets }
    }

    fn value_of<'a>(&self, row: &'a Row, column: usize) -> (r: Option<&'a Datum>)
        requires
            self.wf(),
        ensures
            r == match projected_value(self.columns(), row@, column) {
                Some(v) => Some(&v),
                None => None,
            },
    {
        let mut i: usize = 0;
        while i < self.projected.len()
            invariant
                0 <= i <= self.projected@.len(),
                self.wf(),
                forall|k: int| k < i ==> !#[trigger] projected_at(self.projected@, column, k),
            decreases self.projected@.len() - i,
        {
            if self.projected[i] == column {
                proof {
                    assert(projected_at(self.projected@, column, i as int));
                    let p = choose|p: int| #[trigger] projected_at(self.projected@, column, p);
                    assert(projected_at(self.projected@, column, p));
                    if p < i {
                        assert(self.projected@[p] < self.projected@[i as int]);
                    }
                    if i < p {
                        assert(self.projected@[i as int] < self.projected@[p]);
                    }
                }
                if i < row.len() {
                    return Some(&row[i]);
                } else {
                    return None;
                }
            }
            i = i + 1;
        }
        None
    }

    fn add_row(&mut self, row: &ProjectedRow, j: usize)
        requires
            old(self).wf(),
            j < old(self).count(),
        ensures
            final(self).wf(),
            final(self).columns() == old(self).columns(),
            final(self).count() == old(self).count(),
            final(self).target(j as int) == after_row(
                old(self).target(j as int),
                old(self).columns(),
                *row,
            ),
            forall|k: int|
                0 <= k < old(self).count() && k != j ==> #[trigger] final(self).target(k) == old(
                    self,
                ).target(k),
    {
        let ghost before = self.target(j as int);
        let ghost projected = self.columns();
        let mut keys: Vec<u64> = Vec::new();
        let mut complete: bool = true;
        let mut k: usize = 0;
        while complete && k < self.targets[j].columns.len()
            invariant
                *self == *old(self),
                self.wf(),
                j < self.targets@.len(),
                before == self.targets@[j as int]@,
                projected == self.columns(),
                0 <= k <= before.columns.len(),
                before.columns == self.targets@[j as int].columns@,
                complete ==> keys@.len() == k && forall|m: int|
                    0 <= m < k ==> has_value(projected, row.values@, #[trigger] before.columns[m])
                        && keys@[m] == projected_value(
                        projected,
                        row.values@,
                        before.columns[m],
                    )->Some_0.key,
                !complete ==> !is_complete(projected, row.values@, before.columns),
            decreases before.columns.len() - k + (if complete { 1int } else { 0int }),
        {
            let column: usize = self.targets[j].columns[k];
            match self.value_of(&row.values, column) {
                Some(value) => {
                    if value.is_null {
                        complete = false;
                        assert(!has_value(projected, row.values@, before.columns[k as int]));
                    } else {
                        keys.push(value.key);
                        k = k + 1;
                    }
                },
                None => {
                    complete = false;
                    assert(!has_value(projected, row.values@, before.columns[k as int]));
                },
            }
        }
        let mut target: Target = self.targets.remove(j);
        let fresh: bool = row_set_insert(&mut target.seen, row.row_id);
        if fresh && complete {
            let entry = HnswEntry { row_id: row.row_id, keys };
            let ghost held = target.batch@;
            assert(entry@.keys =~= entry_of(projected, *row, before.columns).keys);
            target.batch.push(entry);
            assert(target@.batch =~= before.batch.push(entry@));
        }
        proof {
            if !fresh {
                assert(before.seen.insert(row.row_id) =~= before.seen);
            }
            assert(target@ =~= after_row(before, projected, *row));
        }
        self.targets.insert(j, target);
    }

    /// Takes one row into every index that has not seen it.
    pub fn scan_row(&mut self, row: &ProjectedRow)
        requires
            old(self).wf(),
        ensures
            final(self).wf(),
            final(self).columns() == old(self).columns(),
            final(self).count() == old(self).count(),
            forall|j: int|
                0 <= j < old(self).count() ==> #[trigger] final(self).target(j) == after_row(
                    old(self).target(j),
                    old(self).columns(),
                    *row,
                ),
    {
        let mut j: usize = 0;
        while j < self.targets.len()
            invariant
                0 <= j <= self.targets@.len(),
                self.wf(),
                self.columns() == old(self).columns(),
                self.count() == old(self).count(),
                self.count() == self.targets@.len(),
                forall|k: int|
                    0 <= k < j ==> #[trigger] self.target(k) == after_row(
                        old(self).target(k),
                        old(self).columns(),
                        *row,
                    ),
                forall|k: int|
                    j <= k < self.count() ==> #[trigger] self.target(k) == old(self).target(k),
            decreases self.targets@.len() - j,
        {
            self.add_row(row, j);
            j = j + 1;
        }
    }

    /// Takes the rows of one segment, without deleted rows and rows that all
    /// indexes cover.
    pub fn scan_volume(
        &mut self,
        rows: &Vec<ProjectedRow>,
        tombstones: &FxHashSet<i64>,
        common: &FxHashSet<i64>,
    )
        requires
            old(self).wf(),
        ensures
            final(self).wf(),
            final(self).columns() == old(self).columns(),
            final(self).count() == old(self).count(),
            forall|j: int|
                0 <= j < old(self).count() ==> #[trigger] final(self).target(j) == after_rows(
                    old(self).target(j),
                    old(self).columns(),
                    rows@,
                    tombstones@.union(common@),
                    rows@.len() as int,
                ),
    {
        let ghost skipped = tombstones@.union(common@);
        let mut i: usize = 0;
        while i < rows.len()
            invariant
                0 <= i <= rows@.len(),
                self.wf(),
                skipped == tombstones@.union(common@),
                self.columns() == old(self).columns(),
                self.count() == old(self).count(),
                forall|j: int|
                    0 <= j < self.count() ==> #[trigger] self.target(j) == after_rows(
                        old(self).target(j),
                        old(self).columns(),
                        rows@,
                        skipped,
                        i as int,
                    ),
            decreases rows@.len() - i,
        {
            let row_id: i64 = rows[i].row_id;
            if !row_set_contains(tombstones, row_id) && !row_set_contains(common, row_id) {
                self.scan_row(&rows[i]);
            }
            i = i + 1;
        }
    }

    /// Hands over the batch of an index: when it is large, or at the end
    /// whatever there is.
    pub fn take_batch(&mut self, j: usize, at_end: bool) -> (batch: Option<Vec<HnswEntry>>)
        requires
            old(self).wf(),
            j < old(self).count(),
        ensures
            final(self).wf(),
            final(self).columns() == old(self).columns(),
            final(self).count() == old(self).count(),
            forall|k: int|
                0 <= k < old(self).count() && k != j ==> #[trigger] final(self).target(k) == old(
                    self,
                ).target(k),
            batch is Some <==> (old(self).target(j as int).batch.len() >= HNSW_FLUSH_THRESHOLD || (
            at_end && old(self).target(j as int).batch.len() > 0)),
            match batch {
                Some(b) => b@.map_values(|e: HnswEntry| e@) == old(self).target(j as int).batch
                    && final(self).target(j as int) == (TargetView {
                    batch: Seq::empty(),
                    ..old(self).target(j as int)
                }),
                None => final(self).target(j as int) == old(self).target(j as int),
            },
    {
        let size: usize = self.targets[j].batch.len();
        if size >= HNSW_FLUSH_THRESHOLD || (at_end && size > 0) {
            let target: Target = self.targets.remove(j);
            let next = Target { columns: target.columns, seen: target.seen, batch: Vec::new() };
            assert(next@.batch =~= Seq::<EntryView>::empty());
            self.targets.insert(j, next);
            Some(target.batch)
        } else {
            None
        }
    }
}

/// What can go wrong while an index is filled.
#[derive(Debug, Clone, Copy, PartialEq, Eq, Structural)]
pub enum BackfillStep {
    Scan { segment_id: u64 },
    Close { segment_id: u64 },
    Add,
}

pub open spec fn backfill_error(table: Seq<char>, step: BackfillStep, text: Seq<char>) -> ErrorView {
    match step {
        BackfillStep::Scan { segment_id } => ErrorView::Internal(
            "cold index segment scan failed for "@ + table + " seg="@ + decimal_digits(
                segment_id as nat,
            ) + ": "@ + text,
        ),
        BackfillStep::Close { segment_id } => ErrorView::Internal(
            "cold index segment scanner close failed for "@ + table + " seg="@ + decimal_digits(
                segment_id as nat,
            ) + ": "@ + text,
        ),
        BackfillStep::Add => ErrorView::Internal(
            "cold index population failed for "@ + table + ": "@ + text,
        ),
    }
}

/// Reports a step that failed.
pub fn backfill_failed(table: &str, step: BackfillStep, text: &str) -> (e: Error)
    ensures
        e@ == backfill_error(table@, step, text@),
{
    let message: String = match step {
        BackfillStep::Scan { segment_id } => String::from_str(
            "cold index segment scan failed for ",
        ).concat(table).concat(" seg=").concat(decimal(segment_id).as_str()).concat(": ").concat(
            text,
        ),
        BackfillStep::Close { segment_id } => String::from_str(
            "cold index segment scanner close failed for ",
        ).concat(table).concat(" seg=").concat(decimal(segment_id).as_str()).concat(": ").concat(
            text,
        ),
        BackfillStep::Add => String::from_str("cold index population failed for ").concat(
            table,
        ).concat(": ").concat(text),
    };
    Error::Internal { message }
}

/// Whether a row of a segment is the first of its identity.
pub open spec fn is_first(rows: Seq<ProjectedRow>, i: int) -> bool {
    &&& 0 <= i < rows.len()
    &&& forall|k: int| 0 <= k < i ==> (#[trigger] rows[k]).row_id != rows[i].row_id
}

/// What a segment adds to an index: no row twice, none that was seen before,
/// and of each row the version that came up first. Whatever is added counts
/// as seen from then on, so a later segment cannot add it again.
pub proof fn law_backfill_adds_each_row_once(
    target: TargetView,
    projected: Seq<usize>,
    rows: Seq<ProjectedRow>,
    skipped: Set<i64>,
    n: int,
)
    requires
        0 <= n <= rows.len(),
    ensures
        ({
            let after = after_rows(target, projected, rows, skipped, n);
            let old_count = target.batch.len() as int;
            &&& after.batch.len() >= old_count
            &&& after.batch.take(old_count) == target.batch
            &&& target.seen.subset_of(after.seen)
            &&& forall|a: int|
                old_count <= a < after.batch.len() ==> {
                    let entry = #[trigger] after.batch[a];
                    &&& !target.seen.contains(entry.row_id)
                    &&& !skipped.contains(entry.row_id)
                    &&& after.seen.contains(entry.row_id)
                    &&& exists|i: int|
                        i < n && #[trigger] is_first(rows, i) && entry == entry_of(
                            projected,
                            rows[i],
                            target.columns,
                        )
                }
            &&& forall|a: int, b: int|
                old_count <= a < b < after.batch.len() ==> (#[trigger] after.batch[a]).row_id != (
                #[trigger] after.batch[b]).row_id
        }),
    decreases n,
{
    lemma_backfill(target, projected, rows, skipped, n);
}

/// As the law, with what each seen row stems from.
proof fn lemma_backfill(
    target: TargetView,
    projected: Seq<usize>,
    rows: Seq<ProjectedRow>,
    skipped: Set<i64>,
    n: int,
)
    requires
        0 <= n <= rows.len(),
    ensures
        ({
            let after = after_rows(target, projected, rows, skipped, n);
            let old_count = target.batch.len() as int;
            &&& after.columns == target.columns
            &&& after.batch.len() >= old_count
            &&& after.batch.take(old_count) == target.batch
            &&& target.seen.subset_of(after.seen)
            &&& forall|k: int|
                0 <= k < n && !skipped.contains((#[trigger] rows[k]).row_id)
                    ==> after.seen.contains(rows[k].row_id)
            &&& forall|a: int|
                old_count <= a < after.batch.len() ==> {
                    let entry = #[trigger] after.batch[a];
                    &&& !target.seen.contains(entry.row_id)
                    &&& !skipped.contains(entry.row_id)
                    &&& after.seen.contains(entry.row_id)
                    &&& exists|i: int|
                        i < n && #[trigger] is_first(rows, i) && entry == entry_of(
                            projected,
                            rows[i],
                            target.columns,
                        )
                }
            &&& forall|a: int, b: int|
                old_count <= a < b < after.batch.len() ==> (#[trigger] after.batch[a]).row_id != (
                #[trigger] after.batch[b]).row_id
        }),
    decreases n,
{
    let old_count = target.batch.len() as int;
    if n == 0 {
        assert(target.batch.take(old_count) =~= target.batch);
    } else {
        lemma_backfill(target, projected, rows, skipped, n - 1);
        let before = after_rows(target, projected, rows, skipped, n - 1);
        let after = after_rows(target, projected, rows, skipped, n);
        let row = rows[n - 1];
        assert(after.batch.take(old_count) =~= target.batch) by {
            assert(before.batch.take(old_count) =~= after.batch.take(old_count));
        }
        if !skipped.contains(row.row_id) && !before.seen.contains(row.row_id) {
            assert(is_first(rows, n - 1)) by {
                assert forall|k: int| 0 <= k < n - 1 implies (#[trigger] rows[k]).row_id
                    != rows[n - 1].row_id by {
                    if rows[k].row_id == row.row_id {
                        assert(before.seen.contains(rows[k].row_id));
                    }
                }
            }
        }
        assert forall|a: int| old_count <= a < after.batch.len() implies {
            let entry = #[trigger] after.batch[a];
            &&& !target.seen.contains(entry.row_id)
            &&& !skipped.contains(entry.row_id)
            &&& after.seen.contains(entry.row_id)
            &&& exists|i: int|
                i < n && #[trigger] is_first(rows, i) && entry == entry_of(
                    projected,
                    rows[i],
                    target.columns,
                )
        } by {
            if a < before.batch.len() {
                assert(after.batch[a] == before.batch[a]);
                let i = choose|i: int|
                    i < n - 1 && #[trigger] is_first(rows, i) && before.batch[a] == entry_of(
                        projected,
                        rows[i],
                        target.columns,
                    );
                assert(is_first(rows, i));
            } else {
                assert(is_first(rows, n - 1));
                assert(after.batch[a] == entry_of(projected, rows[n - 1], target.columns));
            }
        }
        assert forall|a: int, b: int| old_count <= a < b < after.batch.len() implies (
        #[trigger] after.batch[a]).row_id != (#[trigger] after.batch[b]).row_id by {
            assert(after.batch[a] == before.batch[a]);
            if b < before.batch.len() {
                assert(after.batch[b] == before.batch[b]);
            } else {
                assert(before.seen.contains(before.batch[a].row_id));
            }
        }
    }
}

} // verus!
