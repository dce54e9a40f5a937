//! What filling indexes and defaults from what is stored is for.
use super::defaults::integer_value;
use super::defaults::literal_value;
use super::defaults::quotes_are_doubled;
use super::defaults::unescaped;
use super::defaults::LiteralView;
use super::hnsw::after_row;
use super::hnsw::after_rows;
use super::hnsw::cold_indexes;
use super::hnsw::entry_of;
use super::hnsw::is_complete;
use super::hnsw::is_first;
use super::hnsw::projected_at;
use super::hnsw::projected_value;
use super::hnsw::EntryView;
use super::hnsw::ProjectedRow;
use super::hnsw::TargetView;
use crate::schema::DataType;
use crate::schema::IndexInfo;
use crate::schema::IndexType;
use crate::value::Datum;
use vstd::prelude::*;

verus! {

/// The indexes that cold rows are put into are the whole vector indexes with
/// columns, and no others.
pub proof fn law_vector_indexes_take_cold_rows(indexes: Seq<IndexInfo>, n: int, p: usize)
    requires
        0 <= n <= indexes.len() <= usize::MAX,
    ensures
        cold_indexes(indexes, n).contains(p) <==> p < n && indexes[p as int].index_type
            == IndexType::Hnsw && indexes[p as int].predicate_columns is None
            && indexes[p as int].column_ids@.len() > 0,
    decreases n,
{
    if n > 0 {
        law_vector_indexes_take_cold_rows(indexes, n - 1, p);
        let short = cold_indexes(indexes, n - 1);
        let last = (n - 1) as usize;
        let long = short.push(last);
        if short.contains(p) {
            let k = choose|k: int| 0 <= k < short.len() && short[k] == p;
            assert(long[k] == p);
        }
        assert(long[short.len() as int] == last);
        if long.contains(p) {
            let k = choose|k: int| 0 <= k < long.len() && long[k] == p;
            if k < short.len() {
                assert(short[k] == p);
            }
        }
    }
}

/// No column is projected twice.
pub open spec fn projects_once(projected: Seq<usize>) -> bool {
    forall|a: int, b: int|
        0 <= a < b < projected.len() ==> #[trigger] projected[a] != #[trigger] projected[b]
}

/// A scanned row has a value at a column.
pub open spec fn has_at(projected: Seq<usize>, row: Seq<Datum>, column: usize, p: int) -> bool {
    0 <= p < projected.len() && p < row.len() && projected[p] == column && !row[p].is_null
}

proof fn lemma_projected(projected: Seq<usize>, row: Seq<Datum>, column: usize, p: int)
    requires
        projects_once(projected),
        0 <= p < projected.len(),
        p < row.len(),
        projected[p] == column,
    ensures
        projected_value(projected, row, column) == Some(row[p]),
{
    assert(projected_at(projected, column, p));
    let i = choose|i: int| #[trigger] projected_at(projected, column, i);
    if i < p {
        assert(projected[i] != projected[p]);
    }
    if p < i {
        assert(projected[p] != projected[i]);
    }
}

/// An entry is that of a row, with the value of each indexed column.
pub open spec fn is_entry_of(
    entry: EntryView,
    projected: Seq<usize>,
    row: ProjectedRow,
    columns: Seq<usize>,
) -> bool {
    &&& entry.row_id == row.row_id
    &&& entry.keys.len() == columns.len()
    &&& forall|k: int, p: int|
        0 <= k < columns.len() && #[trigger] has_at(
            projected,
            row.values@,
            #[trigger] columns[k],
            p,
        ) ==> entry.keys[k] == row.values@[p].key
}

/// A batch holds the entry of a row.
pub open spec fn holds_entry_of(
    batch: Seq<EntryView>,
    projected: Seq<usize>,
    row: ProjectedRow,
    columns: Seq<usize>,
) -> bool {
    exists|a: int|
        0 <= a < batch.len() && is_entry_of(#[trigger] batch[a], projected, row, columns)
}

proof fn lemma_seen(
    target: TargetView,
    projected: Seq<usize>,
    rows: Seq<ProjectedRow>,
    skipped: Set<i64>,
    n: int,
    x: i64,
)
    requires
        0 <= n <= rows.len(),
        after_rows(target, projected, rows, skipped, n).seen.contains(x),
    ensures
        target.seen.contains(x) || exists|k: int| 0 <= k < n && (#[trigger] rows[k]).row_id == x,
    decreases n,
{
    if n > 0 {
        let before = after_rows(target, projected, rows, skipped, n - 1);
        if before.seen.contains(x) {
            lemma_seen(target, projected, rows, skipped, n - 1, x);
            if !target.seen.contains(x) {
                let k = choose|k: int| 0 <= k < n - 1 && (#[trigger] rows[k]).row_id == x;
                assert(rows[k].row_id == x);
            }
        } else {
            assert(rows[n - 1].row_id == x);
        }
    }
}

proof fn lemma_grows(
    target: TargetView,
    projected: Seq<usize>,
    rows: Seq<ProjectedRow>,
    skipped: Set<i64>,
    m: int,
    n: int,
    entry: EntryView,
)
    requires
        0 <= m <= n <= rows.len(),
        after_rows(target, projected, rows, skipped, m).batch.contains(entry),
    ensures
        after_rows(target, projected, rows, skipped, n).batch.contains(entry),
        after_rows(target, projected, rows, skipped, n).columns == target.columns,
    decreases n,
{
    if m < n {
        lemma_grows(target, projected, rows, skipped, m, n - 1, entry);
        let before = after_rows(target, projected, rows, skipped, n - 1);
        let after = after_rows(target, projected, rows, skipped, n);
        let k = choose|k: int| 0 <= k < before.batch.len() && before.batch[k] == entry;
        assert(after.batch[k] == entry);
    } else {
        lemma_columns(target, projected, rows, skipped, n);
    }
}

proof fn lemma_columns(
    target: TargetView,
    projected: Seq<usize>,
    rows: Seq<ProjectedRow>,
    skipped: Set<i64>,
    n: int,
)
    requires
        0 <= n <= rows.len(),
    ensures
        after_rows(target, projected, rows, skipped, n).columns == target.columns,
    decreases n,
{
    if n > 0 {
        lemma_columns(target, projected, rows, skipped, n - 1);
    }
}

/// A row that a scan brings up for the first time, that is neither indexed nor
/// deleted yet and has a value in every indexed column is put into the index,
/// with those values.
pub proof fn law_backfill_misses_no_row(
    target: TargetView,
    projected: Seq<usize>,
    rows: Seq<ProjectedRow>,
    skipped: Set<i64>,
    n: int,
    i: int,
)
    requires
        projects_once(projected),
        0 <= i < n <= rows.len(),
        is_first(rows, i),
        !target.seen.contains(rows[i].row_id),
        !skipped.contains(rows[i].row_id),
        forall|k: int|
            0 <= k < target.columns.len() ==> exists|p: int| #[trigger]
                has_at(projected, rows[i].values@, #[trigger] target.columns[k], p),
    ensures
        holds_entry_of(
            after_rows(target, projected, rows, skipped, n).batch,
            projected,
            rows[i],
            target.columns,
        ),
{
    let row = rows[i];
    let before = after_rows(target, projected, rows, skipped, i);
    let next = after_rows(target, projected, rows, skipped, i + 1);
    lemma_columns(target, projected, rows, skipped, i);
    if before.seen.contains(row.row_id) {
        lemma_seen(target, projected, rows, skipped, i, row.row_id);
        let k = choose|k: int| 0 <= k < i && (#[trigger] rows[k]).row_id == row.row_id;
        assert(rows[k].row_id != rows[i].row_id);
    }
    let columns = target.columns;
    assert forall|k: int| 0 <= k < columns.len() implies super::hnsw::has_value(
        projected,
        row.values@,
        #[trigger] columns[k],
    ) by {
        let p = choose|p: int| #[trigger] has_at(projected, row.values@, columns[k], p);
        lemma_projected(projected, row.values@, columns[k], p);
    }
    assert(is_complete(projected, row.values@, before.columns));
    let entry = entry_of(projected, row, columns);
    assert(next == after_row(before, projected, row));
    assert(next.batch[before.batch.len() as int] == entry);
    assert(next.batch.contains(entry));
    lemma_grows(target, projected, rows, skipped, i + 1, n, entry);
    let batch = after_rows(target, projected, rows, skipped, n).batch;
    let a = choose|a: int| 0 <= a < batch.len() && batch[a] == entry;
    assert forall|k: int, p: int|
        0 <= k < columns.len() && #[trigger] has_at(
            projected,
            row.values@,
            #[trigger] columns[k],
            p,
        ) implies entry.keys[k] == row.values@[p].key by {
        lemma_projected(projected, row.values@, columns[k], p);
    }
    assert(is_entry_of(batch[a], projected, row, columns));
}

/// A text with each quote doubled, as a literal holds it.
pub open spec fn escaped(text: Seq<char>) -> Seq<char>
    decreases text.len(),
{
    if text.len() == 0 {
        Seq::empty()
    } else if text[0] == '\'' {
        seq!['\'', '\''] + escaped(text.skip(1))
    } else {
        seq![text[0]] + escaped(text.skip(1))
    }
}

proof fn lemma_escaped(text: Seq<char>)
    ensures
        quotes_are_doubled(escaped(text)),
        unescaped(escaped(text)) == text,
    decreases text.len(),
{
    if text.len() > 0 {
        let rest = text.skip(1);
        lemma_escaped(rest);
        let out = escaped(text);
        if text[0] == '\'' {
            assert(out.skip(2) =~= escaped(rest));
            assert(out[0] == '\'' && out[1] == '\'');
        } else {
            assert(out.skip(1) =~= escaped(rest));
            assert(out[0] == text[0]);
        }
        assert(seq![text[0]] + rest =~= text);
    } else {
        assert(unescaped(escaped(text)) =~= text);
    }
}

/// A default written as a quoted text, each quote in it doubled, reads back as
/// that text.
pub proof fn law_quoted_default_reads_back(text: Seq<char>, data_type: DataType)
    ensures
        literal_value(seq!['\''] + escaped(text) + seq!['\''], data_type) == Some(
            LiteralView::Text { text, data_type },
        ),
{
    let written = seq!['\''] + escaped(text) + seq!['\''];
    lemma_escaped(text);
    assert(written.subrange(1, written.len() - 1) =~= escaped(text));
    reveal_strlit("null");
    reveal_strlit("true");
    reveal_strlit("false");
    assert(written[0] == '\'');
    assert(crate::text::ascii_folded(written[0]) == 39);
    assert(crate::text::ascii_folded("null"@[0]) != 39);
    assert(crate::text::ascii_folded("true"@[0]) != 39);
    assert(crate::text::ascii_folded("false"@[0]) != 39);
}

/// A number with a sign is the negative, or the same, of the number without.
pub proof fn law_sign_of_a_default(digits: Seq<char>, value: int)
    requires
        integer_value(digits) == Some(value),
        digits[0] != '-',
        digits[0] != '+',
    ensures
        integer_value(seq!['+'] + digits) == Some(value),
        integer_value(seq!['-'] + digits) == Some(-value),
{
    assert((seq!['+'] + digits).skip(1) =~= digits);
    assert((seq!['-'] + digits).skip(1) =~= digits);
}

} // verus!
