//! Pending rows against cold segments, at commit.
//!
//! A seal may have moved conflicting rows from hot to cold since a row was
//! written. One immutable cold snapshot answers every question of a batch.
use crate::error::ends_in_turn;
use crate::error::lemma_one_end;
use crate::error::may_end;
use crate::error::refusal;
use crate::error::Error;
use crate::error::ErrorView;
use crate::fx::row_set_contains;
use crate::model::views;
use crate::schema::DataType;
use crate::sort::ascending_ids;
use crate::sort::sorted_unique_ids;
use crate::text::join;
use crate::text::joined;
use crate::value::is_same_value;
use crate::value::present;
use crate::value::same_value;
use crate::value::Datum;
use crate::value::Row;
use rustc_hash::FxHashSet;
use vstd::prelude::*;

verus! {

/// What a probe of the cold snapshot says: the row found, if any.
pub type Answer = Result<Option<i64>, Error>;

/// The last local version of one row.
#[derive(Debug)]
pub struct PendingRow {
    pub row_id: i64,
    pub deleted: bool,
    /// The transaction saw no earlier version.
    pub is_insert: bool,
    pub data: Row,
    /// The same values, each coerced to its column's type.
    pub coerced: Row,
    /// The version the transaction read.
    pub old: Option<Row>,
}

/// A unique index other than the primary key.
#[derive(Debug)]
pub struct UniqueIndex {
    pub columns: Vec<usize>,
    pub names: Vec<String>,
}

/// A probe for one value of a column that answers gives one answer: the
/// snapshot that it looks at does not change. Reading it may fail at any time.
pub open spec fn is_key_probe<P: Fn(usize, u64) -> Answer>(probe: P) -> bool {
    &&& forall|column: usize, key: u64| #[trigger] call_requires(probe, (column, key))
    &&& forall|column: usize, key: u64, a: Option<i64>, b: Option<i64>|
        #[trigger] call_ensures(probe, (column, key), Ok(a)) && #[trigger] call_ensures(
            probe,
            (column, key),
            Ok(b),
        ) ==> a == b
}

/// Whether a probe for the values of an index can say this.
pub open spec fn may_answer<U: Fn(usize, &Vec<u64>) -> Answer>(
    probe: U,
    index: usize,
    keys: Seq<u64>,
    answer: Answer,
) -> bool {
    exists|arg: Vec<u64>| arg@ == keys && #[trigger] call_ensures(probe, (index, &arg), answer)
}

/// A probe for the values of an index that answers gives one answer.
pub open spec fn is_unique_probe<U: Fn(usize, &Vec<u64>) -> Answer>(probe: U) -> bool {
    &&& forall|index: usize, keys: &Vec<u64>| #[trigger] call_requires(probe, (index, keys))
    &&& forall|index: usize, keys: Seq<u64>, a: Option<i64>, b: Option<i64>|
        #[trigger] may_answer(probe, index, keys, Ok(a)) && #[trigger] may_answer(
            probe,
            index,
            keys,
            Ok(b),
        ) ==> a == b
}

/// Whether a batch probe can say this of identities, the rows aside that the
/// transaction removes.
pub open spec fn may_find<B: Fn(&Vec<i64>, &FxHashSet<i64>) -> Option<i64>>(
    probe: B,
    ids: Seq<i64>,
    removed: Set<i64>,
    found: Option<i64>,
) -> bool {
    exists|arg: Vec<i64>, gone: FxHashSet<i64>|
        arg@ == ids && gone@ == removed && #[trigger] call_ensures(probe, (&arg, &gone), found)
}

/// A batch probe gives one answer.
pub open spec fn is_batch_probe<B: Fn(&Vec<i64>, &FxHashSet<i64>) -> Option<i64>>(
    probe: B,
) -> bool {
    &&& forall|ids: &Vec<i64>, removed: &FxHashSet<i64>| #[trigger]
        call_requires(probe, (ids, removed))
    &&& forall|ids: Seq<i64>, removed: Set<i64>, a: Option<i64>, b: Option<i64>|
        #[trigger] may_find(probe, ids, removed, a) && #[trigger] may_find(probe, ids, removed, b)
            ==> a == b
}

/// What a batch probe finds among the rows that the transaction keeps.
pub open spec fn batch_answer<B: Fn(&Vec<i64>, &FxHashSet<i64>) -> Option<i64>>(
    probe: B,
    ids: Seq<i64>,
    removed: Set<i64>,
) -> Option<i64> {
    choose|found: Option<i64>| may_find(probe, ids, removed, found)
}

/// Whether a row is a live insert.
pub open spec fn inserts(row: PendingRow) -> bool {
    !row.deleted && row.is_insert
}

/// Whether an inserted row's key is its own identity.
pub open spec fn is_canonical(row: PendingRow, key_column: int) -> bool {
    0 <= key_column < row.data@.len() && row.data@[key_column].integer == Some(row.row_id)
}

/// Whether every live insert's key is its own identity.
pub open spec fn all_canonical(rows: Seq<PendingRow>, key_column: int) -> bool {
    forall|i: int|
        0 <= i < rows.len() && inserts(#[trigger] rows[i]) ==> is_canonical(rows[i], key_column)
}

/// The identities of the live inserts, in ascending order.
pub open spec fn is_insert_batch(rows: Seq<PendingRow>, ids: Seq<i64>) -> bool {
    &&& ascending_ids(ids)
    &&& forall|x: i64|
        ids.contains(x) <==> exists|i: int|
            0 <= i < rows.len() && inserts(#[trigger] rows[i]) && rows[i].row_id == x
}

/// Whether the integer keys of all inserts can be checked at once.
pub open spec fn checks_batch(
    rows: Seq<PendingRow>,
    key_column: Option<usize>,
    key_type: DataType,
) -> bool {
    key_column matches Some(c) && key_type == DataType::Integer && all_canonical(rows, c as int)
}

/// A found row stands in the way unless this transaction removes it, or it
/// is the row itself.
pub open spec fn conflicts(row: PendingRow, found: i64, removed: Set<i64>) -> bool {
    (row.is_insert || found != row.row_id) && !removed.contains(found)
}

/// The version that a row replaces; nothing for an insert.
pub open spec fn old_values(row: PendingRow) -> Seq<Datum> {
    match row.old {
        Some(old) => old@,
        None => Seq::empty(),
    }
}

/// Whether the primary key of a row is looked up on its own.
pub open spec fn probes_key(row: PendingRow, column: int, batch_checked: bool) -> bool {
    &&& present(row.data@, column)
    &&& if row.is_insert {
        !batch_checked
    } else {
        !same_value(row.data@, old_values(row), column)
    }
}

/// What an answer for the primary key of a row means.
pub open spec fn key_verdict(row: PendingRow, removed: Set<i64>, answer: Answer) -> Option<
    ErrorView,
> {
    match answer {
        Err(e) => Some(e@),
        Ok(None) => None,
        Ok(Some(found)) => if conflicts(row, found, removed) {
            Some(ErrorView::PrimaryKeyConstraint(found as int))
        } else {
            None
        },
    }
}

/// Whether the check of a row's primary key can end so.
pub open spec fn key_ends<P: Fn(usize, u64) -> Answer>(
    row: PendingRow,
    key_column: Option<usize>,
    batch_checked: bool,
    removed: Set<i64>,
    probe: P,
    r: Option<ErrorView>,
) -> bool {
    match key_column {
        None => r is None,
        Some(c) => if !probes_key(row, c as int, batch_checked) {
            r is None
        } else {
            exists|answer: Answer|
                #[trigger] call_ensures(probe, (c, row.data@[c as int].key), answer) && r
                    == key_verdict(row, removed, answer)
        },
    }
}

/// Whether all values of an index are there and not null.
pub open spec fn all_present(row: Seq<Datum>, columns: Seq<usize>) -> bool {
    forall|k: int| 0 <= k < columns.len() ==> present(row, #[trigger] columns[k] as int)
}

/// Whether an update leaves the values of an index alone.
pub open spec fn leaves_alone(row: PendingRow, columns: Seq<usize>) -> bool {
    &&& !row.is_insert
    &&& row.old is Some
    &&& forall|k: int|
        0 <= k < columns.len() ==> same_value(
            row.data@,
            row.old->Some_0@,
            #[trigger] columns[k] as int,
        )
}

pub open spec fn keys_of(row: Seq<Datum>, columns: Seq<usize>) -> Seq<u64> {
    columns.map_values(|c: usize| row[c as int].key)
}

pub open spec fn texts_of(row: Seq<Datum>, columns: Seq<usize>) -> Seq<Seq<char>> {
    columns.map_values(|c: usize| row[c as int].text@)
}

pub open spec fn unique_error(row: PendingRow, index: UniqueIndex, found: i64) -> ErrorView {
    ErrorView::UniqueConstraint(
        joined(views(index.names@), "_"@),
        joined(views(index.names@), ", "@),
        joined(texts_of(row.coerced@, index.columns@), ", "@),
        found as int,
    )
}

/// What an answer for the values of a unique index means.
pub open spec fn unique_verdict(
    row: PendingRow,
    index: UniqueIndex,
    removed: Set<i64>,
    answer: Answer,
) -> Option<ErrorView> {
    match answer {
        Err(e) => Some(e@),
        Ok(None) => None,
        Ok(Some(found)) => if conflicts(row, found, removed) {
            Some(unique_error(row, index, found))
        } else {
            None
        },
    }
}

/// Whether the check of a row against one unique index can end so.
pub open spec fn unique_ends<U: Fn(usize, &Vec<u64>) -> Answer>(
    row: PendingRow,
    indexes: Seq<UniqueIndex>,
    removed: Set<i64>,
    probe: U,
    j: int,
    r: Option<ErrorView>,
) -> bool {
    let columns = indexes[j].columns@;
    if leaves_alone(row, columns) || !all_present(row.coerced@, columns) {
        r is None
    } else {
        exists|answer: Answer|
            #[trigger] may_answer(probe, j as usize, keys_of(row.coerced@, columns), answer) && r
                == unique_verdict(row, indexes[j], removed, answer)
    }
}

pub open spec fn unique_may<U: Fn(usize, &Vec<u64>) -> Answer>(
    row: PendingRow,
    indexes: Seq<UniqueIndex>,
    removed: Set<i64>,
    probe: U,
) -> spec_fn(int, Option<ErrorView>) -> bool {
    |j: int, r: Option<ErrorView>| unique_ends(row, indexes, removed, probe, j, r)
}

/// Whether the check of a pending row can end so: first its key, then each
/// unique index in turn.
pub open spec fn row_ends<P: Fn(usize, u64) -> Answer, U: Fn(usize, &Vec<u64>) -> Answer>(
    row: PendingRow,
    key_column: Option<usize>,
    batch_checked: bool,
    indexes: Seq<UniqueIndex>,
    removed: Set<i64>,
    key_probe: P,
    unique_probe: U,
    r: Option<ErrorView>,
) -> bool {
    if row.deleted {
        r is None
    } else {
        ends_in_turn(
            |e: Option<ErrorView>|
                key_ends(row, key_column, batch_checked, removed, key_probe, e),
            |e: Option<ErrorView>|
                may_end(
                    indexes.len() as int,
                    unique_may(row, indexes, removed, unique_probe),
                    e,
                ),
            r,
        )
    }
}

pub open spec fn row_may<P: Fn(usize, u64) -> Answer, U: Fn(usize, &Vec<u64>) -> Answer>(
    rows: Seq<PendingRow>,
    key_column: Option<usize>,
    batch_checked: bool,
    indexes: Seq<UniqueIndex>,
    removed: Set<i64>,
    key_probe: P,
    unique_probe: U,
) -> spec_fn(int, Option<ErrorView>) -> bool {
    |i: int, r: Option<ErrorView>|
        row_ends(
            rows[i],
            key_column,
            batch_checked,
            indexes,
            removed,
            key_probe,
            unique_probe,
            r,
        )
}

/// Whether the inserts' keys, checked at once, are refused.
pub open spec fn batch_refusal<B: Fn(&Vec<i64>, &FxHashSet<i64>) -> Option<i64>>(
    batch_checked: bool,
    ids: Seq<i64>,
    removed: Set<i64>,
    probe: B,
) -> Option<ErrorView> {
    if !batch_checked {
        None
    } else {
        match batch_answer(probe, ids, removed) {
            Some(found) => Some(ErrorView::PrimaryKeyConstraint(found as int)),
            None => None,
        }
    }
}

fn canonical_ids(rows: &Vec<PendingRow>, key_column: usize) -> (r: Option<Vec<i64>>)
    ensures
        r is Some <==> all_canonical(rows@, key_column as int),
        r matches Some(ids) ==> is_insert_batch(rows@, ids@),
{
    let mut ids: Vec<i64> = Vec::new();
    let mut i: usize = 0;
    while i < rows.len()
        invariant
            0 <= i <= rows@.len(),
            forall|k: int|
                0 <= k < i && inserts(#[trigger] rows@[k]) ==> is_canonical(
                    rows@[k],
                    key_column as int,
                ),
            forall|x: i64|
                #[trigger] ids@.contains(x) <==> exists|k: int|
                    0 <= k < i && inserts(#[trigger] rows@[k]) && rows@[k].row_id == x,
        decreases rows@.len() - i,
    {
        let row: &PendingRow = &rows[i];
        if !row.deleted && row.is_insert {
            let canonical: bool = key_column < row.data.len() && match row.data[key_column].integer {
                Some(n) => n == row.row_id,
                None => false,
            };
            if !canonical {
                assert(inserts(rows@[i as int]));
                return None;
            }
            let ghost before = ids@;
            ids.push(row.row_id);
            proof {
                assert forall|x: i64|
                    #[trigger] ids@.contains(x) <==> exists|k: int|
                        0 <= k < i + 1 && inserts(#[trigger] rows@[k]) && rows@[k].row_id == x by {
                    if ids@.contains(x) {
                        let m = choose|m: int| 0 <= m < ids@.len() && ids@[m] == x;
                        if m < before.len() {
                            assert(before[m] == x);
                            assert(before.contains(x));
                        } else {
                            assert(inserts(rows@[i as int]));
                        }
                    }
                    if exists|k: int|
                        0 <= k < i + 1 && inserts(#[trigger] rows@[k]) && rows@[k].row_id == x {
                        let k = choose|k: int|
                            0 <= k < i + 1 && inserts(#[trigger] rows@[k]) && rows@[k].row_id == x;
                        if k < i {
                            assert(before.contains(x));
                            let m = choose|m: int| 0 <= m < before.len() && before[m] == x;
                            assert(ids@[m] == x);
                        } else {
                            assert(ids@[before.len() as int] == x);
                        }
                    }
                }
            }
        }
        i = i + 1;
    }
    let ghost raw = ids@;
    let out: Vec<i64> = sorted_unique_ids(ids);
    assert forall|x: i64|
        out@.contains(x) <==> exists|k: int|
            0 <= k < rows@.len() && inserts(#[trigger] rows@[k]) && rows@[k].row_id == x by {
        assert(raw.contains(x) <==> out@.contains(x));
    }
    Some(out)
}

fn is_conflict(row: &PendingRow, found: i64, removed: &FxHashSet<i64>) -> (r: bool)
    ensures
        r == conflicts(*row, found, removed@),
{
    (row.is_insert || found != row.row_id) && !row_set_contains(removed, found)
}

fn check_key<P: Fn(usize, u64) -> Answer>(
    row: &PendingRow,
    key_column: Option<usize>,
    batch_checked: bool,
    removed: &FxHashSet<i64>,
    probe: &P,
) -> (r: Result<(), Error>)
    requires
        is_key_probe(*probe),
    ensures
        key_ends(*row, key_column, batch_checked, removed@, *probe, refusal(r)),
{
    let column: usize = match key_column {
        Some(column) => column,
        None => {
            return Ok(());
        },
    };
    if column >= row.data.len() || row.data[column].is_null {
        return Ok(());
    }
    if row.is_insert {
        if batch_checked {
            return Ok(());
        }
    } else {
        let unchanged: bool = match &row.old {
            Some(old) => is_same_value(&row.data, old, column),
            None => false,
        };
        if unchanged {
            return Ok(());
        }
    }
    assert(probes_key(*row, column as int, batch_checked));
    let answer: Answer = probe(column, row.data[column].key);
    assert(call_ensures(*probe, (column, row.data@[column as int].key), answer));
    match answer {
        Err(error) => Err(error),
        Ok(None) => Ok(()),
        Ok(Some(found)) => if is_conflict(row, found, removed) {
            Err(Error::PrimaryKeyConstraint { row_id: found })
        } else {
            Ok(())
        },
    }
}

fn check_unique<U: Fn(usize, &Vec<u64>) -> Answer>(
    row: &PendingRow,
    indexes: &Vec<UniqueIndex>,
    removed: &FxHashSet<i64>,
    probe: &U,
    j: usize,
) -> (r: Result<(), Error>)
    requires
        is_unique_probe(*probe),
        j < indexes@.len(),
    ensures
        unique_ends(*row, indexes@, removed@, *probe, j as int, refusal(r)),
{
    let index: &UniqueIndex = &indexes[j];
    let ghost columns = index.columns@;
    if !row.is_insert {
        if let Some(old) = &row.old {
            let mut changed: bool = false;
            let mut k: usize = 0;
            while k < index.columns.len()
                invariant
                    0 <= k <= index.columns@.len(),
                    changed == !forall|m: int|
                        0 <= m < k ==> same_value(
                            row.data@,
                            old@,
                            #[trigger] index.columns@[m] as int,
                        ),
                decreases index.columns@.len() - k,
            {
                if !is_same_value(&row.data, old, index.columns[k]) {
                    changed = true;
                    assert(!same_value(row.data@, old@, index.columns@[k as int] as int));
                }
                k = k + 1;
            }
            if !changed {
                assert(leaves_alone(*row, columns));
                return Ok(());
            }
        }
    }
    assert(!leaves_alone(*row, columns));
    let mut keys: Vec<u64> = Vec::new();
    let mut texts: Vec<String> = Vec::new();
    let mut k: usize = 0;
    while k < index.columns.len()
        invariant
            0 <= k <= index.columns@.len(),
            index == indexes@[j as int],
            j < indexes@.len(),
            columns == index.columns@,
            !leaves_alone(*row, columns),
            keys@.len() == k,
            texts@.len() == k,
            forall|m: int|
                0 <= m < k ==> present(row.coerced@, #[trigger] columns[m] as int) && keys@[m]
                    == row.coerced@[columns[m] as int].key && texts@[m]@
                    == row.coerced@[columns[m] as int].text@,
        decreases index.columns@.len() - k,
    {
        let c: usize = index.columns[k];
        if c >= row.coerced.len() || row.coerced[c].is_null {
            assert(!present(row.coerced@, columns[k as int] as int));
            return Ok(());
        }
        keys.push(row.coerced[c].key);
        texts.push(row.coerced[c].text.clone());
        k = k + 1;
    }
    assert(all_present(row.coerced@, columns));
    assert(keys@ =~= keys_of(row.coerced@, columns));
    assert(views(texts@) =~= texts_of(row.coerced@, columns));
    let answer: Answer = probe(j, &keys);
    assert(call_ensures(*probe, (j, &keys), answer));
    let ghost given = answer;
    let r: Result<(), Error> = match answer {
        Err(error) => Err(error),
        Ok(None) => Ok(()),
        Ok(Some(found)) => if is_conflict(row, found, removed) {
            Err(
                Error::UniqueConstraint {
                    index: join(&index.names, "_"),
                    column: join(&index.names, ", "),
                    value: join(&texts, ", "),
                    row_id: found,
                },
            )
        } else {
            Ok(())
        },
    };
    assert(may_answer(
        *probe,
        (j as int) as usize,
        keys_of(row.coerced@, indexes@[j as int].columns@),
        given,
    ));
    assert(refusal(r) == unique_verdict(*row, indexes@[j as int], removed@, given));
    r
}

fn check_row<P: Fn(usize, u64) -> Answer, U: Fn(usize, &Vec<u64>) -> Answer>(
    row: &PendingRow,
    key_column: Option<usize>,
    batch_checked: bool,
    indexes: &Vec<UniqueIndex>,
    removed: &FxHashSet<i64>,
    key_probe: &P,
    unique_probe: &U,
) -> (r: Result<(), Error>)
    requires
        is_key_probe(*key_probe),
        is_unique_probe(*unique_probe),
    ensures
        row_ends(
            *row,
            key_column,
            batch_checked,
            indexes@,
            removed@,
            *key_probe,
            *unique_probe,
            refusal(r),
        ),
{
    if row.deleted {
        return Ok(());
    }
    let r: Result<(), Error> = check_key(row, key_column, batch_checked, removed, key_probe);
    if r.is_err() {
        return r;
    }
    let ghost n = indexes@.len() as int;
    let ghost may = unique_may(*row, indexes@, removed@, *unique_probe);
    let mut j: usize = 0;
    while j < indexes.len()
        invariant
            0 <= j <= indexes@.len() == n,
            !row.deleted,
            is_unique_probe(*unique_probe),
            may == unique_may(*row, indexes@, removed@, *unique_probe),
            key_ends(*row, key_column, batch_checked, removed@, *key_probe, None),
            forall|k: int| 0 <= k < j ==> #[trigger] may(k, None),
        decreases indexes@.len() - j,
    {
        let r: Result<(), Error> = check_unique(row, indexes, removed, unique_probe, j);
        assert(may(j as int, refusal(r)));
        if r.is_err() {
            assert(may_end(n, may, refusal(r)));
            return r;
        }
        j = j + 1;
    }
    assert(may_end(n, may, None));
    Ok(())
}

/// Whether a cold check can end so. The batch comes first; behind it, each row
/// in turn. What a probe answers decides, and an error that a probe gives ends
/// the check with it.
pub open spec fn cold_check_ends<P: Fn(usize, u64) -> Answer, U: Fn(usize, &Vec<u64>) -> Answer>(
    rows: Seq<PendingRow>,
    key_column: Option<usize>,
    key_type: DataType,
    indexes: Seq<UniqueIndex>,
    removed: Set<i64>,
    key_probe: P,
    unique_probe: U,
    batch: Option<ErrorView>,
    r: Option<ErrorView>,
) -> bool {
    if batch is Some {
        r == batch
    } else {
        may_end(
            rows.len() as int,
            row_may(
                rows,
                key_column,
                checks_batch(rows, key_column, key_type),
                indexes,
                removed,
                key_probe,
                unique_probe,
            ),
            r,
        )
    }
}

/// Where no probe fails, a cold check has one end.
pub proof fn law_cold_check_is_decided<
    P: Fn(usize, u64) -> Answer,
    U: Fn(usize, &Vec<u64>) -> Answer,
>(
    rows: Seq<PendingRow>,
    key_column: Option<usize>,
    key_type: DataType,
    indexes: Seq<UniqueIndex>,
    removed: Set<i64>,
    key_probe: P,
    unique_probe: U,
    batch: Option<ErrorView>,
    a: Option<ErrorView>,
    b: Option<ErrorView>,
)
    requires
        is_key_probe(key_probe),
        is_unique_probe(unique_probe),
        forall|column: usize, key: u64, answer: Answer| #[trigger]
            call_ensures(key_probe, (column, key), answer) ==> answer is Ok,
        forall|index: usize, keys: Seq<u64>, answer: Answer| #[trigger]
            may_answer(unique_probe, index, keys, answer) ==> answer is Ok,
        cold_check_ends(
            rows,
            key_column,
            key_type,
            indexes,
            removed,
            key_probe,
            unique_probe,
            batch,
            a,
        ),
        cold_check_ends(
            rows,
            key_column,
            key_type,
            indexes,
            removed,
            key_probe,
            unique_probe,
            batch,
            b,
        ),
    ensures
        a == b,
{
    if batch is None {
        let batch_checked = checks_batch(rows, key_column, key_type);
        let may = row_may(
            rows,
            key_column,
            batch_checked,
            indexes,
            removed,
            key_probe,
            unique_probe,
        );
        assert forall|k: int, x: Option<ErrorView>, y: Option<ErrorView>|
            0 <= k < rows.len() && #[trigger] may(k, x) && #[trigger] may(k, y) implies x == y by {
            lemma_row_is_decided(
                rows[k],
                key_column,
                batch_checked,
                indexes,
                removed,
                key_probe,
                unique_probe,
                x,
                y,
            );
        }
        lemma_one_end(rows.len() as int, may, a, b);
    }
}

proof fn lemma_row_is_decided<P: Fn(usize, u64) -> Answer, U: Fn(usize, &Vec<u64>) -> Answer>(
    row: PendingRow,
    key_column: Option<usize>,
    batch_checked: bool,
    indexes: Seq<UniqueIndex>,
    removed: Set<i64>,
    key_probe: P,
    unique_probe: U,
    a: Option<ErrorView>,
    b: Option<ErrorView>,
)
    requires
        is_key_probe(key_probe),
        is_unique_probe(unique_probe),
        forall|column: usize, key: u64, answer: Answer| #[trigger]
            call_ensures(key_probe, (column, key), answer) ==> answer is Ok,
        forall|index: usize, keys: Seq<u64>, answer: Answer| #[trigger]
            may_answer(unique_probe, index, keys, answer) ==> answer is Ok,
        row_ends(row, key_column, batch_checked, indexes, removed, key_probe, unique_probe, a),
        row_ends(row, key_column, batch_checked, indexes, removed, key_probe, unique_probe, b),
    ensures
        a == b,
{
    if !row.deleted {
        assert forall|x: Option<ErrorView>, y: Option<ErrorView>|
            #[trigger] key_ends(row, key_column, batch_checked, removed, key_probe, x)
                && #[trigger] key_ends(
                row,
                key_column,
                batch_checked,
                removed,
                key_probe,
                y,
            ) implies x == y by {
            if let Some(c) = key_column {
                if probes_key(row, c as int, batch_checked) {
                    let key = row.data@[c as int].key;
                    let p = choose|answer: Answer|
                        #[trigger] call_ensures(key_probe, (c, key), answer) && x == key_verdict(
                            row,
                            removed,
                            answer,
                        );
                    let q = choose|answer: Answer|
                        #[trigger] call_ensures(key_probe, (c, key), answer) && y == key_verdict(
                            row,
                            removed,
                            answer,
                        );
                    assert(p == Ok::<Option<i64>, Error>(p->Ok_0));
                    assert(q == Ok::<Option<i64>, Error>(q->Ok_0));
                }
            }
        }
        let may = unique_may(row, indexes, removed, unique_probe);
        assert forall|j: int, x: Option<ErrorView>, y: Option<ErrorView>|
            0 <= j < indexes.len() && #[trigger] may(j, x) && #[trigger] may(j, y) implies x
            == y by {
            let columns = indexes[j].columns@;
            if !leaves_alone(row, columns) && all_present(row.coerced@, columns) {
                let keys = keys_of(row.coerced@, columns);
                let p = choose|answer: Answer|
                    #[trigger] may_answer(unique_probe, j as usize, keys, answer) && x
                        == unique_verdict(row, indexes[j], removed, answer);
                let q = choose|answer: Answer|
                    #[trigger] may_answer(unique_probe, j as usize, keys, answer) && y
                        == unique_verdict(row, indexes[j], removed, answer);
                assert(p == Ok::<Option<i64>, Error>(p->Ok_0));
                assert(q == Ok::<Option<i64>, Error>(q->Ok_0));
            }
        }
        let n = indexes.len() as int;
        if may_end(n, may, a) && may_end(n, may, b) {
            lemma_one_end(n, may, a, b);
        }
    }
}

/// Checks live pending rows against the cold rows. An INTEGER key is the row
/// identity: all inserts are then checked at once, unless one of them keeps
/// another key. `removed` holds the cold rows that the transaction deletes.
pub fn validate_pending_against_cold<
    P: Fn(usize, u64) -> Answer,
    U: Fn(usize, &Vec<u64>) -> Answer,
    B: Fn(&Vec<i64>, &FxHashSet<i64>) -> Option<i64>,
>(
    rows: &Vec<PendingRow>,
    key_column: Option<usize>,
    key_type: DataType,
    indexes: &Vec<UniqueIndex>,
    removed: &FxHashSet<i64>,
    key_probe: &P,
    unique_probe: &U,
    batch_probe: &B,
) -> (r: Result<(), Error>)
    requires
        is_key_probe(*key_probe),
        is_unique_probe(*unique_probe),
        is_batch_probe(*batch_probe),
    ensures
        exists|ids: Seq<i64>|
            #[trigger] is_insert_batch(rows@, ids) && cold_check_ends(
                rows@,
                key_column,
                key_type,
                indexes@,
                removed@,
                *key_probe,
                *unique_probe,
                batch_refusal(
                    checks_batch(rows@, key_column, key_type),
                    ids,
                    removed@,
                    *batch_probe,
                ),
                refusal(r),
            ),
{
    let mut batch_checked: bool = false;
    let ghost mut ids: Seq<i64> = Seq::empty();
    proof {
        ids = lemma_insert_batch(rows@);
    }
    if let Some(column) = key_column {
        if key_type == DataType::Integer {
            if let Some(batch) = canonical_ids(rows, column) {
                batch_checked = true;
                let found: Option<i64> = batch_probe(&batch, removed);
                proof {
                    ids = batch@;
                    assert(call_ensures(*batch_probe, (&batch, removed), found));
                    assert(may_find(*batch_probe, batch@, removed@, found));
                    assert(batch_answer(*batch_probe, ids, removed@) == found);
                }
                if let Some(row_id) = found {
                    assert(is_insert_batch(rows@, ids));
                    return Err(Error::PrimaryKeyConstraint { row_id });
                }
            }
        }
    }
    assert(batch_checked == checks_batch(rows@, key_column, key_type));
    assert(batch_refusal(batch_checked, ids, removed@, *batch_probe) is None);
    let ghost n = rows@.len() as int;
    let ghost may = row_may(
        rows@,
        key_column,
        batch_checked,
        indexes@,
        removed@,
        *key_probe,
        *unique_probe,
    );
    let mut i: usize = 0;
    while i < rows.len()
        invariant
            0 <= i <= rows@.len() == n,
            is_key_probe(*key_probe),
            is_unique_probe(*unique_probe),
            batch_checked == checks_batch(rows@, key_column, key_type),
            is_insert_batch(rows@, ids),
            batch_refusal(batch_checked, ids, removed@, *batch_probe) is None,
            may == row_may(
                rows@,
                key_column,
                batch_checked,
                indexes@,
                removed@,
                *key_probe,
                *unique_probe,
            ),
            forall|k: int| 0 <= k < i ==> #[trigger] may(k, None),
        decreases rows@.len() - i,
    {
        let r: Result<(), Error> = check_row(
            &rows[i],
            key_column,
            batch_checked,
            indexes,
            removed,
            key_probe,
            unique_probe,
        );
        assert(may(i as int, refusal(r)));
        if r.is_err() {
            assert(may_end(n, may, refusal(r)));
            assert(is_insert_batch(rows@, ids));
            return r;
        }
        i = i + 1;
    }
    assert(may_end(n, may, None));
    assert(is_insert_batch(rows@, ids));
    Ok(())
}

/// Puts an identity in its place in an ascending list.
proof fn lemma_insert_id(ids: Seq<i64>, x: i64) -> (out: Seq<i64>)
    requires
        ascending_ids(ids),
    ensures
        ascending_ids(out),
        forall|y: i64| out.contains(y) <==> (ids.contains(y) || y == x),
    decreases ids.len(),
{
    if ids.len() == 0 {
        let out = seq![x];
        assert(out[0] == x);
        assert forall|y: i64| out.contains(y) <==> (ids.contains(y) || y == x) by {
            if y == x {
                assert(out[0] == y);
            }
        }
        out
    } else if ids.last() < x {
        let out = ids.push(x);
        assert forall|y: i64| out.contains(y) <==> (ids.contains(y) || y == x) by {
            if ids.contains(y) {
                let k = choose|k: int| 0 <= k < ids.len() && ids[k] == y;
                assert(out[k] == y);
            }
            if y == x {
                assert(out[ids.len() as int] == y);
            }
            if out.contains(y) {
                let k = choose|k: int| 0 <= k < out.len() && out[k] == y;
                if k < ids.len() {
                    assert(ids[k] == y);
                }
            }
        }
        assert forall|i: int, j: int| 0 <= i < j < out.len() implies #[trigger] out[i]
            < #[trigger] out[j] by {
            if j == ids.len() && i < ids.len() - 1 {
                assert(ids[i] < ids[ids.len() - 1]);
            }
        }
        out
    } else if ids.last() == x {
        assert(ids[ids.len() - 1] == x);
        ids
    } else {
        let last = ids.last();
        let shorter = ids.drop_last();
        let front = lemma_insert_id(shorter, x);
        let out = front.push(last);
        assert forall|i: int, j: int| 0 <= i < j < out.len() implies #[trigger] out[i]
            < #[trigger] out[j] by {
            if j == front.len() {
                assert(front.contains(front[i]));
                if shorter.contains(front[i]) {
                    let k = choose|k: int| 0 <= k < shorter.len() && shorter[k] == front[i];
                    assert(ids[k] < ids[ids.len() - 1]);
                }
            }
        }
        assert forall|y: i64| out.contains(y) <==> (ids.contains(y) || y == x) by {
            if out.contains(y) {
                let k = choose|k: int| 0 <= k < out.len() && out[k] == y;
                if k < front.len() {
                    assert(front.contains(y));
                    if shorter.contains(y) {
                        let m = choose|m: int| 0 <= m < shorter.len() && shorter[m] == y;
                        assert(ids[m] == y);
                    }
                } else {
                    assert(ids[ids.len() - 1] == y);
                }
            }
            if ids.contains(y) {
                let m = choose|m: int| 0 <= m < ids.len() && ids[m] == y;
                if m < shorter.len() {
                    assert(shorter[m] == y);
                    assert(front.contains(y));
                } else {
                    assert(out[front.len() as int] == y);
                }
            }
            if front.contains(y) {
                let k = choose|k: int| 0 <= k < front.len() && front[k] == y;
                assert(out[k] == y);
            }
            if y == x {
                assert(front.contains(x));
            }
        }
        out
    }
}

/// The live inserts have an ascending list of identities.
proof fn lemma_insert_batch(rows: Seq<PendingRow>) -> (ids: Seq<i64>)
    ensures
        is_insert_batch(rows, ids),
    decreases rows.len(),
{
    if rows.len() == 0 {
        Seq::empty()
    } else {
        let shorter = rows.drop_last();
        let before = lemma_insert_batch(shorter);
        let last = rows.last();
        let ids = if inserts(last) {
            lemma_insert_id(before, last.row_id)
        } else {
            before
        };
        assert forall|x: i64|
            ids.contains(x) <==> exists|i: int|
                0 <= i < rows.len() && inserts(#[trigger] rows[i]) && rows[i].row_id == x by {
            if before.contains(x) {
                let i = choose|i: int|
                    0 <= i < shorter.len() && inserts(#[trigger] shorter[i]) && shorter[i].row_id
                        == x;
                assert(rows[i] == shorter[i]);
            }
            if exists|i: int|
                0 <= i < rows.len() && inserts(#[trigger] rows[i]) && rows[i].row_id == x {
                let i = choose|i: int|
                    0 <= i < rows.len() && inserts(#[trigger] rows[i]) && rows[i].row_id == x;
                if i < shorter.len() {
                    assert(shorter[i] == rows[i]);
                    assert(before.contains(x));
                }
            }
            if inserts(last) && x == last.row_id {
                assert(rows[rows.len() - 1] == last);
            }
        }
        ids
    }
}

} // verus!
