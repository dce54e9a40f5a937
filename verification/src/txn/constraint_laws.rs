//! What the checks at the commit boundary are for.
use super::cold_check::all_canonical;
use super::cold_check::batch_answer;
use super::cold_check::batch_refusal;
use super::cold_check::checks_batch;
use super::cold_check::cold_check_ends;
use super::cold_check::inserts;
use super::cold_check::is_batch_probe;
use super::cold_check::is_canonical;
use super::cold_check::is_key_probe;
use super::cold_check::is_unique_probe;
use super::cold_check::keys_of;
use super::cold_check::may_answer;
use super::cold_check::may_find;
use super::cold_check::row_may;
use super::cold_check::unique_may;
use super::cold_check::Answer;
use super::cold_check::PendingRow;
use super::cold_check::UniqueIndex;
use super::constraints::child_key_may;
use super::constraints::dml_check_ends;
use super::constraints::given_up_may;
use super::constraints::is_value_probe;
use super::constraints::may_hold;
use super::constraints::never_fails;
use super::constraints::new_row_may;
use super::constraints::new_rows_may;
use super::constraints::parent_child_may;
use super::constraints::parent_key_may;
use super::constraints::parents_may;
use super::constraints::RowChange;
use super::constraints::TableChanges;
use crate::error::may_end;
use crate::error::Error;
use crate::error::ErrorView;
use crate::schema::column_position;
use crate::schema::DataType;
use crate::schema::ForeignKeyView;
use crate::schema::Schema;
use crate::text::same_ignoring_ascii_case;
use crate::value::Datum;
use rustc_hash::FxHashSet;
use vstd::prelude::*;

verus! {

/// A changed row had a value at a column.
pub open spec fn had_value(change: RowChange, p: int) -> bool {
    change.old is Some && 0 <= p < change.old->Some_0@.len() && !change.old->Some_0@[p].is_null
}

/// A changed row still has at a column the value that it had.
pub open spec fn still_has(change: RowChange, p: int) -> bool {
    &&& change.new is Some
    &&& p < change.new->Some_0@.len()
    &&& !change.new->Some_0@[p].is_null
    &&& change.new->Some_0@[p].key == change.old->Some_0@[p].key
}

/// A foreign key of a child refers to this table.
pub open spec fn refers_to(fk: ForeignKeyView, table: TableChanges) -> bool {
    same_ignoring_ascii_case(fk.referenced_table, table.name@)
}

proof fn lemma_accepted_parent<E: Fn(&str, &str, &Datum) -> Result<bool, Error>>(
    tables: Seq<TableChanges>,
    schemas: Seq<Schema>,
    probe: E,
    t: int,
    c: int,
    k: int,
)
    requires
        dml_check_ends(tables, schemas, probe, None),
        0 <= t < tables.len(),
        tables[t].rows@.len() > 0,
        0 <= c < schemas.len(),
        0 <= k < schemas[c]@.foreign_keys.len(),
    ensures
        parent_key_may(tables[t], schemas[c]@, probe)(k, None),
{
    let outer = parents_may(tables, schemas, probe);
    assert(may_end(tables.len() as int, outer, None));
    assert(outer(t, None));
    let middle = parent_child_may(tables[t], schemas, probe);
    assert(may_end(schemas.len() as int, middle, None));
    assert(middle(c, None));
    assert(may_end(
        schemas[c]@.foreign_keys.len() as int,
        parent_key_may(tables[t], schemas[c]@, probe),
        None,
    ));
}

/// Where the check accepts, no row is orphaned: for each changed row with a
/// value in a referenced column, whether it was deleted or updated, the row
/// still has that value, or the parent table still holds it, or no row of the
/// child does.
pub proof fn law_accepted_change_orphans_no_row<E: Fn(&str, &str, &Datum) -> Result<bool, Error>>(
    tables: Seq<TableChanges>,
    schemas: Seq<Schema>,
    probe: E,
    t: int,
    i: int,
    c: int,
    k: int,
    p: int,
)
    requires
        dml_check_ends(tables, schemas, probe, None),
        0 <= t < tables.len(),
        0 <= i < tables[t].rows@.len(),
        0 <= c < schemas.len(),
        0 <= k < schemas[c]@.foreign_keys.len(),
        refers_to(schemas[c]@.foreign_keys[k], tables[t]),
        column_position(tables[t].schema@, schemas[c]@.foreign_keys[k].referenced_column) == Some(
            p,
        ),
        had_value(tables[t].rows@[i], p),
    ensures
        ({
            let fk = schemas[c]@.foreign_keys[k];
            let value = tables[t].rows@[i].old->Some_0@[p];
            ||| still_has(tables[t].rows@[i], p)
            ||| may_hold(probe, tables[t].name@, fk.referenced_column, value, Ok(true))
            ||| may_hold(probe, schemas[c]@.table_name, fk.column_name, value, Ok(false))
        }),
{
    lemma_accepted_parent(tables, schemas, probe, t, c, k);
    let fk = schemas[c]@.foreign_keys[k];
    let inner = given_up_may(tables[t], schemas[c]@, fk, p, probe);
    assert(may_end(tables[t].rows@.len() as int, inner, None));
    assert(inner(i, None));
}

/// A change that leaves a child's row without its parent is refused, whether
/// the parent row was deleted or given another value.
pub proof fn law_orphaning_change_is_refused<E: Fn(&str, &str, &Datum) -> Result<bool, Error>>(
    tables: Seq<TableChanges>,
    schemas: Seq<Schema>,
    probe: E,
    r: Option<ErrorView>,
    t: int,
    i: int,
    c: int,
    k: int,
    p: int,
)
    requires
        is_value_probe(probe),
        dml_check_ends(tables, schemas, probe, r),
        0 <= t < tables.len(),
        0 <= i < tables[t].rows@.len(),
        0 <= c < schemas.len(),
        0 <= k < schemas[c]@.foreign_keys.len(),
        refers_to(schemas[c]@.foreign_keys[k], tables[t]),
        column_position(tables[t].schema@, schemas[c]@.foreign_keys[k].referenced_column) == Some(
            p,
        ),
        had_value(tables[t].rows@[i], p),
        !still_has(tables[t].rows@[i], p),
        ({
            let fk = schemas[c]@.foreign_keys[k];
            let value = tables[t].rows@[i].old->Some_0@[p];
            &&& may_hold(probe, tables[t].name@, fk.referenced_column, value, Ok(false))
            &&& may_hold(probe, schemas[c]@.table_name, fk.column_name, value, Ok(true))
        }),
    ensures
        r is Some,
{
    if r is None {
        law_accepted_change_orphans_no_row(tables, schemas, probe, t, i, c, k, p);
    }
}

/// Where the check accepts, every changed table has its validator, every new
/// row is valid, has all columns of its foreign keys and finds in the parent
/// each that is not null.
pub proof fn law_accepted_rows_have_parents<E: Fn(&str, &str, &Datum) -> Result<bool, Error>>(
    tables: Seq<TableChanges>,
    schemas: Seq<Schema>,
    probe: E,
    t: int,
    i: int,
    k: int,
)
    requires
        dml_check_ends(tables, schemas, probe, None),
        0 <= t < tables.len(),
        0 <= i < tables[t].rows@.len(),
    ensures
        tables[t].binding is Ok,
        tables[t].rows@[i].new is Some ==> tables[t].rows@[i].verdict is Ok,
        tables[t].rows@[i].new is Some && 0 <= k < tables[t].schema@.foreign_keys.len() ==> {
            let fk = tables[t].schema@.foreign_keys[k];
            let row = tables[t].rows@[i].new->Some_0@;
            &&& fk.column_index < row.len()
            &&& row[fk.column_index as int].is_null || may_hold(
                probe,
                fk.referenced_table,
                fk.referenced_column,
                row[fk.column_index as int],
                Ok(true),
            )
        },
{
    let outer = new_rows_may(tables, probe);
    assert(may_end(tables.len() as int, outer, None));
    assert(outer(t, None));
    let middle = new_row_may(tables[t], probe);
    assert(may_end(tables[t].rows@.len() as int, middle, None));
    assert(middle(i, None));
    if tables[t].rows@[i].new is Some && 0 <= k < tables[t].schema@.foreign_keys.len() {
        let row = tables[t].rows@[i].new->Some_0@;
        let inner = child_key_may(tables[t].name@, tables[t].schema@, row, probe);
        assert(may_end(tables[t].schema@.foreign_keys.len() as int, inner, None));
        assert(inner(k, None));
    }
}

/// A new row whose parent is not there is refused.
pub proof fn law_parentless_row_is_refused<E: Fn(&str, &str, &Datum) -> Result<bool, Error>>(
    tables: Seq<TableChanges>,
    schemas: Seq<Schema>,
    probe: E,
    r: Option<ErrorView>,
    t: int,
    i: int,
    k: int,
)
    requires
        is_value_probe(probe),
        dml_check_ends(tables, schemas, probe, r),
        0 <= t < tables.len(),
        0 <= i < tables[t].rows@.len(),
        tables[t].rows@[i].new is Some,
        0 <= k < tables[t].schema@.foreign_keys.len(),
        ({
            let fk = tables[t].schema@.foreign_keys[k];
            let row = tables[t].rows@[i].new->Some_0@;
            &&& fk.column_index < row.len()
            &&& !row[fk.column_index as int].is_null
            &&& may_hold(
                probe,
                fk.referenced_table,
                fk.referenced_column,
                row[fk.column_index as int],
                Ok(false),
            )
        }),
    ensures
        r is Some,
{
    if r is None {
        law_accepted_rows_have_parents(tables, schemas, probe, t, i, k);
    }
}

/// A new row stands without its parent, and this says so.
pub open spec fn lacks_parent<E: Fn(&str, &str, &Datum) -> Result<bool, Error>>(
    table: TableChanges,
    probe: E,
    e: ErrorView,
    i: int,
    k: int,
) -> bool {
    &&& 0 <= i < table.rows@.len()
    &&& table.rows@[i].new is Some
    &&& 0 <= k < table.schema@.foreign_keys.len()
    &&& {
        let fk = table.schema@.foreign_keys[k];
        let row = table.rows@[i].new->Some_0@;
        &&& fk.column_index < row.len()
        &&& !row[fk.column_index as int].is_null
        &&& may_hold(
            probe,
            fk.referenced_table,
            fk.referenced_column,
            row[fk.column_index as int],
            Ok(false),
        )
        &&& e is ForeignKeyViolation
        &&& e->ForeignKeyViolation_0 == table.name@
        &&& e->ForeignKeyViolation_1 == fk.column_name
        &&& e->ForeignKeyViolation_2 == fk.referenced_table
        &&& e->ForeignKeyViolation_3 == fk.referenced_column
    }
}

/// A changed row left a child's row without its parent, and this says so.
pub open spec fn orphans_child<E: Fn(&str, &str, &Datum) -> Result<bool, Error>>(
    table: TableChanges,
    schemas: Seq<Schema>,
    probe: E,
    e: ErrorView,
    i: int,
    c: int,
    k: int,
    p: int,
) -> bool {
    &&& 0 <= i < table.rows@.len()
    &&& 0 <= c < schemas.len()
    &&& 0 <= k < schemas[c]@.foreign_keys.len()
    &&& had_value(table.rows@[i], p)
    &&& !still_has(table.rows@[i], p)
    &&& {
        let child = schemas[c]@;
        let fk = child.foreign_keys[k];
        let value = table.rows@[i].old->Some_0@[p];
        &&& refers_to(fk, table)
        &&& column_position(table.schema@, fk.referenced_column) == Some(p)
        &&& may_hold(probe, table.name@, fk.referenced_column, value, Ok(false))
        &&& may_hold(probe, child.table_name, fk.column_name, value, Ok(true))
        &&& e is ForeignKeyViolation
        &&& e->ForeignKeyViolation_0 == child.table_name
        &&& e->ForeignKeyViolation_1 == fk.column_name
        &&& e->ForeignKeyViolation_2 == table.name@
        &&& e->ForeignKeyViolation_3 == fk.referenced_column
    }
}

/// A row of this table cannot be checked, and this says why: the table has no
/// validator, the row is not valid, it lacks the column of a foreign key, or a
/// child refers to a column that the table does not have.
pub open spec fn cannot_check(
    table: TableChanges,
    schemas: Seq<Schema>,
    e: ErrorView,
) -> bool {
    ||| table.rows@.len() > 0 && table.binding is Err && e == table.binding->Err_0@
    ||| exists|i: int|
        0 <= i < table.rows@.len() && (#[trigger] table.rows@[i]).new is Some
            && table.rows@[i].verdict is Err && e == table.rows@[i].verdict->Err_0@
    ||| e is Internal && exists|i: int, k: int|
        0 <= i < table.rows@.len() && (#[trigger] table.rows@[i]).new is Some && 0 <= k
            < table.schema@.foreign_keys.len() && (
        #[trigger] table.schema@.foreign_keys[k]).column_index >= table.rows@[i].new->Some_0@.len()
    ||| table.rows@.len() > 0 && exists|c: int, k: int|
        {
            let fk = #[trigger] schemas[c]@.foreign_keys[k];
            &&& 0 <= c < schemas.len()
            &&& 0 <= k < schemas[c]@.foreign_keys.len()
            &&& refers_to(fk, table)
            &&& column_position(table.schema@, fk.referenced_column) is None
            &&& e == ErrorView::ColumnNotFound(fk.referenced_column)
        }
}

proof fn lemma_new_row_cause<E: Fn(&str, &str, &Datum) -> Result<bool, Error>>(
    table: TableChanges,
    schemas: Seq<Schema>,
    probe: E,
    e: ErrorView,
)
    requires
        never_fails(probe),
        super::constraints::new_rows_end(table, probe, Some(e)),
    ensures
        cannot_check(table, schemas, e) || exists|i: int, k: int| #[trigger]
            lacks_parent(table, probe, e, i, k),
{
    if !(table.rows@.len() > 0 && table.binding is Err) {
        let middle = new_row_may(table, probe);
        assert(may_end(table.rows@.len() as int, middle, Some(e)));
        let i = choose|i: int|
            0 <= i < table.rows@.len() && #[trigger] middle(i, Some(e)) && forall|k: int|
                0 <= k < i ==> #[trigger] middle(k, None);
        let change = table.rows@[i];
        assert(super::constraints::new_row_ends(
            table.name@,
            table.schema@,
            change,
            probe,
            Some(e),
        ));
        if change.verdict is Ok {
            let row = change.new->Some_0@;
            let inner = child_key_may(table.name@, table.schema@, row, probe);
            let n = table.schema@.foreign_keys.len() as int;
            assert(may_end(n, inner, Some(e)));
            let k = choose|k: int|
                0 <= k < n && #[trigger] inner(k, Some(e)) && forall|m: int|
                    0 <= m < k ==> #[trigger] inner(m, None);
            let fk = table.schema@.foreign_keys[k];
            if fk.column_index >= row.len() {
                assert(table.rows@[i].new is Some && table.schema@.foreign_keys[k].column_index
                    >= table.rows@[i].new->Some_0@.len());
                assert(cannot_check(table, schemas, e));
            } else {
                let value = row[fk.column_index as int];
                let answer = choose|answer: Result<bool, Error>|
                    #[trigger] may_hold(
                        probe,
                        fk.referenced_table,
                        fk.referenced_column,
                        value,
                        answer,
                    ) && Some(e) == super::constraints::child_verdict(
                        table.name@,
                        fk,
                        value,
                        answer,
                    );
                assert(answer is Ok);
                assert(answer == Ok::<bool, Error>(false));
                assert(lacks_parent(table, probe, e, i, k));
            }
        }
    }
}

proof fn lemma_parent_cause<E: Fn(&str, &str, &Datum) -> Result<bool, Error>>(
    table: TableChanges,
    schemas: Seq<Schema>,
    probe: E,
    e: ErrorView,
    c: int,
    k: int,
)
    requires
        never_fails(probe),
        table.rows@.len() > 0,
        0 <= c < schemas.len(),
        0 <= k < schemas[c]@.foreign_keys.len(),
        parent_key_may(table, schemas[c]@, probe)(k, Some(e)),
    ensures
        cannot_check(table, schemas, e) || exists|i: int, p: int| #[trigger]
            orphans_child(table, schemas, probe, e, i, c, k, p),
{
    let child = schemas[c]@;
    let fk = child.foreign_keys[k];
    assert(super::constraints::parent_key_ends(table, child, fk, probe, Some(e)));
    match column_position(table.schema@, fk.referenced_column) {
        None => {
            assert(schemas[c]@.foreign_keys[k] == fk);
            assert(cannot_check(table, schemas, e));
        },
        Some(p) => {
            let inner = given_up_may(table, child, fk, p, probe);
            assert(may_end(table.rows@.len() as int, inner, Some(e)));
            let i = choose|i: int|
                0 <= i < table.rows@.len() && #[trigger] inner(i, Some(e)) && forall|m: int|
                    0 <= m < i ==> #[trigger] inner(m, None);
            let value = table.rows@[i].old->Some_0@[p];
            assert(super::constraints::given_up_ends(
                table.name@,
                child,
                fk,
                p,
                table.rows@[i],
                probe,
                Some(e),
            ));
            let kept = choose|kept: Result<bool, Error>|
                #[trigger] may_hold(probe, table.name@, fk.referenced_column, value, kept)
                    && match kept {
                    Err(x) => Some(e) == Some(x@),
                    Ok(true) => false,
                    Ok(false) => exists|used: Result<bool, Error>|
                        #[trigger] may_hold(probe, child.table_name, fk.column_name, value, used)
                            && match used {
                            Err(x) => Some(e) == Some(x@),
                            Ok(true) => Some(e) == Some(
                                super::constraints::parent_error(child, fk, table.name@, value),
                            ),
                            Ok(false) => false,
                        },
                };
            assert(kept == Ok::<bool, Error>(false));
            let used = choose|used: Result<bool, Error>|
                #[trigger] may_hold(probe, child.table_name, fk.column_name, value, used)
                    && match used {
                    Err(x) => Some(e) == Some(x@),
                    Ok(true) => Some(e) == Some(
                        super::constraints::parent_error(child, fk, table.name@, value),
                    ),
                    Ok(false) => false,
                };
            assert(used == Ok::<bool, Error>(true));
            assert(orphans_child(table, schemas, probe, e, i, c, k, p));
        },
    }
}

/// Where no look-up fails, a refusal has its cause and names it: a row that
/// cannot be checked, a new row without its parent, or a child's row that a
/// change leaves without its own.
pub proof fn law_refusal_has_a_cause<E: Fn(&str, &str, &Datum) -> Result<bool, Error>>(
    tables: Seq<TableChanges>,
    schemas: Seq<Schema>,
    probe: E,
    e: ErrorView,
)
    requires
        never_fails(probe),
        dml_check_ends(tables, schemas, probe, Some(e)),
    ensures
        exists|t: int|
            0 <= t < tables.len() && {
                ||| cannot_check(#[trigger] tables[t], schemas, e)
                ||| exists|i: int, k: int| #[trigger] lacks_parent(tables[t], probe, e, i, k)
                ||| exists|i: int, c: int, k: int, p: int| #[trigger]
                    orphans_child(tables[t], schemas, probe, e, i, c, k, p)
            },
{
    let n = tables.len() as int;
    let rows = new_rows_may(tables, probe);
    let parents = parents_may(tables, schemas, probe);
    if may_end(n, rows, Some(e)) {
        let t = choose|t: int|
            0 <= t < n && #[trigger] rows(t, Some(e)) && forall|k: int|
                0 <= k < t ==> #[trigger] rows(k, None);
        lemma_new_row_cause(tables[t], schemas, probe, e);
    } else {
        assert(may_end(n, parents, Some(e)));
        let t = choose|t: int|
            0 <= t < n && #[trigger] parents(t, Some(e)) && forall|k: int|
                0 <= k < t ==> #[trigger] parents(k, None);
        let middle = parent_child_may(tables[t], schemas, probe);
        assert(may_end(schemas.len() as int, middle, Some(e)));
        let c = choose|c: int|
            0 <= c < schemas.len() && #[trigger] middle(c, Some(e)) && forall|k: int|
                0 <= k < c ==> #[trigger] middle(k, None);
        let m = schemas[c]@.foreign_keys.len() as int;
        let inner = parent_key_may(tables[t], schemas[c]@, probe);
        assert(may_end(m, inner, Some(e)));
        let k = choose|k: int|
            0 <= k < m && #[trigger] inner(k, Some(e)) && forall|a: int|
                0 <= a < k ==> #[trigger] inner(a, None);
        lemma_parent_cause(tables[t], schemas, probe, e, c, k);
        if exists|i: int, p: int| #[trigger] orphans_child(tables[t], schemas, probe, e, i, c, k, p) {
            let (i, p) = choose|i: int, p: int| #[trigger]
                orphans_child(tables[t], schemas, probe, e, i, c, k, p);
            assert(orphans_child(tables[t], schemas, probe, e, i, c, k, p));
        }
    }
}

/// A cold row stands in the way of a pending one: this transaction does not
/// remove it, and it is not the row that an update rewrites.
pub open spec fn stands_in_the_way(row: PendingRow, found: i64, removed: Set<i64>) -> bool {
    !removed.contains(found) && (row.is_insert || found != row.row_id)
}

/// An update gives a column another value.
pub open spec fn changes_value(row: PendingRow, c: int) -> bool {
    &&& !row.is_insert
    &&& row.old is Some
    &&& 0 <= c < row.data@.len()
    &&& 0 <= c < row.old->Some_0@.len()
    &&& (row.data@[c].key != row.old->Some_0@[c].key || row.data@[c].is_null
        != row.old->Some_0@[c].is_null)
}

/// A pending row claims these values of a unique index.
pub open spec fn claims(row: PendingRow, columns: Seq<usize>, keys: Seq<u64>) -> bool {
    &&& !row.deleted
    &&& row.is_insert || exists|k: int|
        0 <= k < columns.len() && changes_value(row, #[trigger] columns[k] as int)
    &&& keys.len() == columns.len()
    &&& forall|k: int|
        0 <= k < columns.len() ==> (#[trigger] columns[k]) < row.coerced@.len()
            && !row.coerced@[columns[k] as int].is_null && keys[k]
            == row.coerced@[columns[k] as int].key
}

/// All live inserts have their own identity as their integer key.
pub open spec fn keys_are_identities(
    rows: Seq<PendingRow>,
    key_column: Option<usize>,
    key_type: DataType,
) -> bool {
    &&& key_column is Some
    &&& key_type == DataType::Integer
    &&& forall|i: int|
        0 <= i < rows.len() && !(#[trigger] rows[i]).deleted && rows[i].is_insert ==> {
            &&& key_column->Some_0 < rows[i].data@.len()
            &&& rows[i].data@[key_column->Some_0 as int].integer == Some(rows[i].row_id)
        }
}

/// A pending row claims this value of the primary key, and is to be looked up
/// on its own.
pub open spec fn claims_key(
    rows: Seq<PendingRow>,
    i: int,
    key_column: Option<usize>,
    key_type: DataType,
) -> bool {
    &&& 0 <= i < rows.len()
    &&& !rows[i].deleted
    &&& key_column is Some
    &&& key_column->Some_0 < rows[i].data@.len()
    &&& !rows[i].data@[key_column->Some_0 as int].is_null
    &&& if rows[i].is_insert {
        !keys_are_identities(rows, key_column, key_type)
    } else {
        changes_value(rows[i], key_column->Some_0 as int)
    }
}

proof fn lemma_batch(rows: Seq<PendingRow>, key_column: Option<usize>, key_type: DataType)
    ensures
        checks_batch(rows, key_column, key_type) == keys_are_identities(
            rows,
            key_column,
            key_type,
        ),
{
    if key_column is Some {
        let c = key_column->Some_0 as int;
        if keys_are_identities(rows, key_column, key_type) {
            assert forall|i: int| 0 <= i < rows.len() && inserts(#[trigger] rows[i]) implies
                is_canonical(rows[i], c) by {}
            assert(all_canonical(rows, c));
        }
        if checks_batch(rows, key_column, key_type) {
            assert forall|i: int|
                0 <= i < rows.len() && !(#[trigger] rows[i]).deleted && rows[i].is_insert implies {
                &&& c < rows[i].data@.len()
                &&& rows[i].data@[c].integer == Some(rows[i].row_id)
            } by {
                assert(inserts(rows[i]));
                assert(is_canonical(rows[i], c));
            }
        }
    }
}

/// Where the check against cold segments accepts, no cold row stands in the way
/// of the values that a pending row claims of a unique index.
pub proof fn law_accepted_values_are_unique<
    P: Fn(usize, u64) -> Answer,
    U: Fn(usize, &Vec<u64>) -> Answer,
>(
    rows: Seq<PendingRow>,
    key_column: Option<usize>,
    key_type: DataType,
    indexes: Seq<UniqueIndex>,
    removed: Set<i64>,
    key_probe: P,
    unique_probe: U,
    batch: Option<ErrorView>,
    i: int,
    j: int,
    keys: Seq<u64>,
)
    requires
        cold_check_ends(
            rows,
            key_column,
            key_type,
            indexes,
            removed,
            key_probe,
            unique_probe,
            batch,
            None,
        ),
        0 <= i < rows.len(),
        0 <= j < indexes.len(),
        claims(rows[i], indexes[j].columns@, keys),
    ensures
        exists|found: Option<i64>|
            #[trigger] may_answer(unique_probe, j as usize, keys, Ok(found)) && (found is None
                || !stands_in_the_way(rows[i], found->Some_0, removed)),
{
    let may = row_may(
        rows,
        key_column,
        checks_batch(rows, key_column, key_type),
        indexes,
        removed,
        key_probe,
        unique_probe,
    );
    assert(may_end(rows.len() as int, may, None));
    assert(may(i, None));
    let inner = unique_may(rows[i], indexes, removed, unique_probe);
    assert(may_end(indexes.len() as int, inner, None));
    assert(inner(j, None));
    let columns = indexes[j].columns@;
    assert(keys =~= keys_of(rows[i].coerced@, columns));
    assert(super::cold_check::unique_ends(rows[i], indexes, removed, unique_probe, j, None));
    if !rows[i].is_insert {
        let k = choose|k: int|
            0 <= k < columns.len() && changes_value(rows[i], #[trigger] columns[k] as int);
        assert(!super::cold_check::leaves_alone(rows[i], columns));
    }
    assert(super::cold_check::all_present(rows[i].coerced@, columns));
    let answer = choose|answer: Answer|
        #[trigger] may_answer(unique_probe, j as usize, keys, answer)
            && super::cold_check::unique_verdict(rows[i], indexes[j], removed, answer) is None;
    assert(may_answer(unique_probe, j as usize, keys, Ok(answer->Ok_0)));
}

/// A pending row whose values of a unique index a cold row holds is refused.
pub proof fn law_duplicate_values_are_refused<
    P: Fn(usize, u64) -> Answer,
    U: Fn(usize, &Vec<u64>) -> Answer,
>(
    rows: Seq<PendingRow>,
    key_column: Option<usize>,
    key_type: DataType,
    indexes: Seq<UniqueIndex>,
    removed: Set<i64>,
    key_probe: P,
    unique_probe: U,
    batch: Option<ErrorView>,
    r: Option<ErrorView>,
    i: int,
    j: int,
    keys: Seq<u64>,
    found: i64,
)
    requires
        is_unique_probe(unique_probe),
        cold_check_ends(
            rows,
            key_column,
            key_type,
            indexes,
            removed,
            key_probe,
            unique_probe,
            batch,
            r,
        ),
        0 <= i < rows.len(),
        0 <= j < indexes.len(),
        claims(rows[i], indexes[j].columns@, keys),
        may_answer(unique_probe, j as usize, keys, Ok(Some(found))),
        stands_in_the_way(rows[i], found, removed),
    ensures
        r is Some,
{
    if r is None {
        law_accepted_values_are_unique(
            rows,
            key_column,
            key_type,
            indexes,
            removed,
            key_probe,
            unique_probe,
            batch,
            i,
            j,
            keys,
        );
        let other = choose|other: Option<i64>|
            #[trigger] may_answer(unique_probe, j as usize, keys, Ok(other)) && (other is None
                || !stands_in_the_way(rows[i], other->Some_0, removed));
        assert(other == Some(found));
    }
}

/// Where the check against cold segments accepts, no cold row stands in the way
/// of a primary key that is looked up on its own.
pub proof fn law_accepted_key_is_free<
    P: Fn(usize, u64) -> Answer,
    U: Fn(usize, &Vec<u64>) -> Answer,
>(
    rows: Seq<PendingRow>,
    key_column: Option<usize>,
    key_type: DataType,
    indexes: Seq<UniqueIndex>,
    removed: Set<i64>,
    key_probe: P,
    unique_probe: U,
    batch: Option<ErrorView>,
    i: int,
)
    requires
        cold_check_ends(
            rows,
            key_column,
            key_type,
            indexes,
            removed,
            key_probe,
            unique_probe,
            batch,
            None,
        ),
        claims_key(rows, i, key_column, key_type),
    ensures
        exists|found: Option<i64>|
            #[trigger] call_ensures(
                key_probe,
                (
                    key_column->Some_0,
                    rows[i].data@[key_column->Some_0 as int].key,
                ),
                Ok(found),
            ) && (found is None || !stands_in_the_way(rows[i], found->Some_0, removed)),
{
    lemma_batch(rows, key_column, key_type);
    let batched = checks_batch(rows, key_column, key_type);
    let may = row_may(rows, key_column, batched, indexes, removed, key_probe, unique_probe);
    assert(may_end(rows.len() as int, may, None));
    assert(may(i, None));
    let c = key_column->Some_0;
    assert(super::cold_check::key_ends(rows[i], key_column, batched, removed, key_probe, None));
    assert(super::cold_check::probes_key(rows[i], c as int, batched));
    let answer = choose|answer: Answer|
        #[trigger] call_ensures(key_probe, (c, rows[i].data@[c as int].key), answer)
            && super::cold_check::key_verdict(rows[i], removed, answer) is None;
    assert(call_ensures(key_probe, (c, rows[i].data@[c as int].key), Ok(answer->Ok_0)));
}

/// A pending row whose primary key a cold row holds is refused.
pub proof fn law_duplicate_key_is_refused<
    P: Fn(usize, u64) -> Answer,
    U: Fn(usize, &Vec<u64>) -> Answer,
>(
    rows: Seq<PendingRow>,
    key_column: Option<usize>,
    key_type: DataType,
    indexes: Seq<UniqueIndex>,
    removed: Set<i64>,
    key_probe: P,
    unique_probe: U,
    batch: Option<ErrorView>,
    r: Option<ErrorView>,
    i: int,
    found: i64,
)
    requires
        is_key_probe(key_probe),
        cold_check_ends(
            rows,
            key_column,
            key_type,
            indexes,
            removed,
            key_probe,
            unique_probe,
            batch,
            r,
        ),
        claims_key(rows, i, key_column, key_type),
        call_ensures(
            key_probe,
            (key_column->Some_0, rows[i].data@[key_column->Some_0 as int].key),
            Ok(Some(found)),
        ),
        stands_in_the_way(rows[i], found, removed),
    ensures
        r is Some,
{
    if r is None {
        law_accepted_key_is_free(
            rows,
            key_column,
            key_type,
            indexes,
            removed,
            key_probe,
            unique_probe,
            batch,
            i,
        );
        let c = key_column->Some_0;
        let other = choose|other: Option<i64>|
            #[trigger] call_ensures(
                key_probe,
                (c, rows[i].data@[c as int].key),
                Ok(other),
            ) && (other is None || !stands_in_the_way(rows[i], other->Some_0, removed));
        assert(other == Some(found));
    }
}

/// Where all inserts have their identity as their key, the keys are looked up
/// at once; a cold row among them is reported before anything else.
pub proof fn law_duplicate_identity_is_refused<
    P: Fn(usize, u64) -> Answer,
    U: Fn(usize, &Vec<u64>) -> Answer,
    B: Fn(&Vec<i64>, &FxHashSet<i64>) -> Option<i64>,
>(
    rows: Seq<PendingRow>,
    key_column: Option<usize>,
    key_type: DataType,
    indexes: Seq<UniqueIndex>,
    removed: Set<i64>,
    key_probe: P,
    unique_probe: U,
    batch_probe: B,
    ids: Seq<i64>,
    r: Option<ErrorView>,
    found: i64,
)
    requires
        is_batch_probe(batch_probe),
        cold_check_ends(
            rows,
            key_column,
            key_type,
            indexes,
            removed,
            key_probe,
            unique_probe,
            batch_refusal(
                checks_batch(rows, key_column, key_type),
                ids,
                removed,
                batch_probe,
            ),
            r,
        ),
        keys_are_identities(rows, key_column, key_type),
        may_find(batch_probe, ids, removed, Some(found)),
    ensures
        r == Some(ErrorView::PrimaryKeyConstraint(found as int)),
{
    lemma_batch(rows, key_column, key_type);
    assert(may_find(batch_probe, ids, removed, batch_answer(batch_probe, ids, removed)));
}

/// A row without a conflict, and one that is deleted, is never refused: where
/// no probe finds a cold row in the way, the check accepts.
pub proof fn law_rows_without_conflict_are_accepted<
    P: Fn(usize, u64) -> Answer,
    U: Fn(usize, &Vec<u64>) -> Answer,
>(
    rows: Seq<PendingRow>,
    key_column: Option<usize>,
    key_type: DataType,
    indexes: Seq<UniqueIndex>,
    removed: Set<i64>,
    key_probe: P,
    unique_probe: U,
    r: Option<ErrorView>,
)
    requires
        cold_check_ends(
            rows,
            key_column,
            key_type,
            indexes,
            removed,
            key_probe,
            unique_probe,
            None,
            r,
        ),
        forall|i: int, c: usize, answer: Answer|
            0 <= i < rows.len() && !rows[i].deleted && #[trigger] call_ensures(
                key_probe,
                (c, (#[trigger] rows[i]).data@[c as int].key),
                answer,
            ) ==> answer is Ok && (answer->Ok_0 is Some ==> !stands_in_the_way(
                rows[i],
                answer->Ok_0->Some_0,
                removed,
            )),
        forall|i: int, j: usize, keys: Seq<u64>, answer: Answer|
            0 <= i < rows.len() && !(#[trigger] rows[i]).deleted && #[trigger] may_answer(
                unique_probe,
                j,
                keys,
                answer,
            ) ==> answer is Ok && (answer->Ok_0 is Some ==> !stands_in_the_way(
                rows[i],
                answer->Ok_0->Some_0,
                removed,
            )),
    ensures
        r is None,
{
    if r is Some {
        let batched = checks_batch(rows, key_column, key_type);
        let may = row_may(rows, key_column, batched, indexes, removed, key_probe, unique_probe);
        assert(may_end(rows.len() as int, may, r));
        let i = choose|i: int|
            0 <= i < rows.len() && #[trigger] may(i, r) && forall|k: int|
                0 <= k < i ==> #[trigger] may(k, None);
        let row = rows[i];
        assert(!row.deleted);
        if super::cold_check::key_ends(row, key_column, batched, removed, key_probe, r) {
            let c = key_column->Some_0;
            let answer = choose|answer: Answer|
                #[trigger] call_ensures(key_probe, (c, row.data@[c as int].key), answer) && r
                    == super::cold_check::key_verdict(row, removed, answer);
            assert(call_ensures(key_probe, (c, rows[i].data@[c as int].key), answer));
        } else {
            let inner = unique_may(row, indexes, removed, unique_probe);
            assert(may_end(indexes.len() as int, inner, r));
            let j = choose|j: int|
                0 <= j < indexes.len() && #[trigger] inner(j, r) && forall|k: int|
                    0 <= k < j ==> #[trigger] inner(k, None);
            let keys = keys_of(row.coerced@, indexes[j].columns@);
            let answer = choose|answer: Answer|
                #[trigger] may_answer(unique_probe, j as usize, keys, answer) && r
                    == super::cold_check::unique_verdict(row, indexes[j], removed, answer);
            assert(!rows[i].deleted && may_answer(unique_probe, j as usize, keys, answer));
        }
    }
}

} // verus!
