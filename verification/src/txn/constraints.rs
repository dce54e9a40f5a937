//! Row and foreign-key constraints at the commit boundary.
//!
//! Statement checks are useful diagnostics, but only a pass that runs while
//! commits are serialized closes the gap between a child's insert and its
//! parent's delete.
use crate::error::earlier;
use crate::error::ends_in_turn;
use crate::error::first_refusal;
use crate::error::lemma_one_end;
use crate::error::may_end;
use crate::error::refusal;
use crate::error::Error;
use crate::error::ErrorView;
use crate::schema::column_position;
use crate::schema::DataType;
use crate::schema::ForeignKeyConstraint;
use crate::schema::ForeignKeyView;
use crate::schema::Schema;
use crate::schema::SchemaView;
use crate::text::eq_ignore_ascii_case;
use crate::text::same_ignoring_ascii_case;
use crate::value::holds_key;
use crate::value::Datum;
use crate::value::Row;
use vstd::prelude::*;
use vstd::string::StringExecFns;

verus! {

/// One row that a transaction changed.
#[derive(Debug)]
pub struct RowChange {
    pub row_id: i64,
    pub old: Option<Row>,
    /// The new version; nothing where the row is deleted.
    pub new: Option<Row>,
    /// What the row validator says of the new version.
    pub verdict: Result<(), Error>,
}

/// The changed rows of one table.
#[derive(Debug)]
pub struct TableChanges {
    pub name: String,
    pub schema: Schema,
    pub rows: Vec<RowChange>,
    /// What binding the row validator to the schema came to.
    pub binding: Result<(), Error>,
}

/// Whether a changed row of this identity is at this position.
pub open spec fn changes_row_at(rows: Seq<RowChange>, row_id: i64, i: int) -> bool {
    0 <= i < rows.len() && rows[i].row_id == row_id
}

/// No row occurs twice.
pub open spec fn distinct_rows(rows: Seq<RowChange>) -> bool {
    forall|i: int, j: int|
        0 <= i < j < rows.len() ==> (#[trigger] rows[i]).row_id != (#[trigger] rows[j]).row_id
}

/// Whether the earlier version of a deleted cold row still has to be fetched.
pub open spec fn lacks_old(rows: Seq<RowChange>, row_id: i64) -> bool {
    forall|i: int| #[trigger] changes_row_at(rows, row_id, i) ==> rows[i].old is None
}

fn find_row(rows: &Vec<RowChange>, row_id: i64) -> (r: Option<usize>)
    ensures
        match r {
            Some(i) => changes_row_at(rows@, row_id, i as int),
            None => forall|i: int| !#[trigger] changes_row_at(rows@, row_id, i),
        },
{
    let mut i: usize = 0;
    while i < rows.len()
        invariant
            0 <= i <= rows@.len(),
            forall|k: int| k < i ==> !#[trigger] changes_row_at(rows@, row_id, k),
        decreases rows@.len() - i,
    {
        if rows[i].row_id == row_id {
            return Some(i);
        }
        i = i + 1;
    }
    None
}

/// Whether the earlier version of a deleted cold row still has to be fetched.
pub fn needs_cold_row(rows: &Vec<RowChange>, row_id: i64) -> (r: bool)
    requires
        distinct_rows(rows@),
    ensures
        r == lacks_old(rows@, row_id),
{
    match find_row(rows, row_id) {
        Some(i) => {
            assert forall|k: int| #[trigger] changes_row_at(rows@, row_id, k) implies k == i by {
                if k < i {
                    assert(rows@[k].row_id != rows@[i as int].row_id);
                }
                if i < k {
                    assert(rows@[i as int].row_id != rows@[k].row_id);
                }
            }
            assert(changes_row_at(rows@, row_id, i as int));
            rows[i].old.is_none()
        },
        None => true,
    }
}

/// Notes the earlier version of a deleted cold row.
pub fn add_cold_row(rows: &mut Vec<RowChange>, row_id: i64, old_row: Row)
    requires
        distinct_rows(old(rows)@),
    ensures
        distinct_rows(final(rows)@),
        if exists|i: int| #[trigger] changes_row_at(old(rows)@, row_id, i) {
            exists|i: int|
                #[trigger] changes_row_at(old(rows)@, row_id, i) && final(rows)@ == old(
                    rows,
                )@.update(i, RowChange { old: Some(old_row), ..old(rows)@[i] })
        } else {
            final(rows)@ == old(rows)@.push(
                RowChange { row_id, old: Some(old_row), new: None, verdict: Ok(()) },
            )
        },
{
    let ghost before = rows@;
    match find_row(rows, row_id) {
        Some(i) => {
            let found: RowChange = rows.remove(i);
            let next = RowChange {
                row_id: found.row_id,
                old: Some(old_row),
                new: found.new,
                verdict: found.verdict,
            };
            rows.insert(i, next);
            proof {
                assert(rows@ =~= before.update(i as int, next));
                assert(changes_row_at(before, row_id, i as int));
                assert forall|a: int, b: int| 0 <= a < b < rows@.len() implies (
                #[trigger] rows@[a]).row_id != (#[trigger] rows@[b]).row_id by {
                    assert(before[a].row_id != before[b].row_id);
                }
            }
        },
        None => {
            rows.push(RowChange { row_id, old: Some(old_row), new: None, verdict: Ok(()) });
            proof {
                assert forall|a: int, b: int| 0 <= a < b < rows@.len() implies (
                #[trigger] rows@[a]).row_id != (#[trigger] rows@[b]).row_id by {
                    if b == before.len() {
                        assert(!changes_row_at(before, row_id, a));
                    } else {
                        assert(before[a].row_id != before[b].row_id);
                    }
                }
            }
        },
    }
}

/// How the presence of a value is looked up.
#[derive(Debug, Clone, Copy, PartialEq, Eq, Structural)]
pub enum ValueProbe {
    /// The value is the identity of a row.
    RowId(i64),
    /// Rows have to be searched by the column at this position.
    Scan(usize),
}

pub open spec fn value_probe(schema: SchemaView, column: Seq<char>, value: Datum) -> Result<
    ValueProbe,
    ErrorView,
> {
    match column_position(schema, column) {
        None => Err(ErrorView::ColumnNotFound(column)),
        Some(p) => {
            let found = schema.columns[p];
            match value.integer {
                Some(n) if found.primary_key && found.data_type == DataType::Integer => Ok(
                    ValueProbe::RowId(n),
                ),
                _ => Ok(ValueProbe::Scan(p as usize)),
            }
        },
    }
}

/// Chooses how the presence of a value is looked up.
pub fn choose_value_probe(schema: &Schema, column_name: &str, value: &Datum) -> (r: Result<
    ValueProbe,
    Error,
>)
    ensures
        match r {
            Ok(probe) => value_probe(schema@, column_name@, *value) == Ok::<ValueProbe, ErrorView>(
                probe,
            ),
            Err(e) => value_probe(schema@, column_name@, *value) == Err::<ValueProbe, ErrorView>(
                e@,
            ),
        },
{
    match schema.get_column_index(column_name) {
        None => Err(Error::ColumnNotFound(String::from_str(column_name))),
        Some(p) => {
            assert(schema@.columns[p as int] == schema.columns@[p as int]@);
            if schema.columns[p].primary_key && schema.columns[p].data_type == DataType::Integer {
                if let Some(n) = value.integer {
                    return Ok(ValueProbe::RowId(n));
                }
            }
            Ok(ValueProbe::Scan(p))
        },
    }
}

/// What a look-up by identity says: exactly one hit, and that one matches.
pub fn identity_probe_found(hits: usize, matched: bool) -> (r: bool)
    ensures
        r == (hits == 1 && matched),
{
    hits == 1 && matched
}

/// Whether a probe can say this of a value of a table's column.
pub open spec fn may_hold<E: Fn(&str, &str, &Datum) -> Result<bool, Error>>(
    probe: E,
    table: Seq<char>,
    column: Seq<char>,
    value: Datum,
    answer: Result<bool, Error>,
) -> bool {
    exists|t: &str, c: &str|
        t@ == table && c@ == column && #[trigger] call_ensures(probe, (t, c, &value), answer)
}

/// A probe that answers gives one answer for one transaction-final state.
/// Reading that state may fail at any time.
pub open spec fn is_value_probe<E: Fn(&str, &str, &Datum) -> Result<bool, Error>>(probe: E) -> bool {
    &&& forall|t: &str, c: &str, value: &Datum| #[trigger] call_requires(probe, (t, c, value))
    &&& forall|table: Seq<char>, column: Seq<char>, value: Datum, a: bool, b: bool|
        #[trigger] may_hold(probe, table, column, value, Ok(a)) && #[trigger] may_hold(
            probe,
            table,
            column,
            value,
            Ok(b),
        ) ==> a == b
}

fn ask<E: Fn(&str, &str, &Datum) -> Result<bool, Error>>(
    probe: &E,
    table: &str,
    column: &str,
    value: &Datum,
) -> (r: Result<bool, Error>)
    requires
        is_value_probe(*probe),
    ensures
        may_hold(*probe, table@, column@, *value, r),
{
    let r: Result<bool, Error> = probe(table, column, value);
    assert(call_ensures(*probe, (table, column, value), r));
    assert(may_hold(*probe, table@, column@, *value, r));
    r
}

pub open spec fn missing_key_error(table: Seq<char>, fk: ForeignKeyView) -> ErrorView {
    ErrorView::Internal(
        "row in '"@ + table + "' is missing foreign-key column '"@ + fk.column_name + "'"@,
    )
}

fn missing_key(table: &str, fk: &ForeignKeyConstraint) -> (e: Error)
    ensures
        e@ == missing_key_error(table@, fk@),
{
    Error::Internal {
        message: String::from_str("row in '").concat(table).concat(
            "' is missing foreign-key column '",
        ).concat(fk.column_name.as_str()).concat("'"),
    }
}

pub open spec fn child_error(table: Seq<char>, fk: ForeignKeyView, value: Datum) -> ErrorView {
    ErrorView::ForeignKeyViolation(
        table,
        fk.column_name,
        fk.referenced_table,
        fk.referenced_column,
        "referenced row with "@ + fk.referenced_column + " = "@ + value.text@
            + " does not exist at commit"@,
    )
}

/// What an answer on the parent of a new row's key means.
pub open spec fn child_verdict(
    table: Seq<char>,
    fk: ForeignKeyView,
    value: Datum,
    answer: Result<bool, Error>,
) -> Option<ErrorView> {
    match answer {
        Err(e) => Some(e@),
        Ok(true) => None,
        Ok(false) => Some(child_error(table, fk, value)),
    }
}

/// Whether the check of a new row's foreign key can end so.
pub open spec fn child_key_ends<E: Fn(&str, &str, &Datum) -> Result<bool, Error>>(
    table: Seq<char>,
    fk: ForeignKeyView,
    row: Seq<Datum>,
    probe: E,
    r: Option<ErrorView>,
) -> bool {
    if fk.column_index >= row.len() {
        r == Some(missing_key_error(table, fk))
    } else if row[fk.column_index as int].is_null {
        r is None
    } else {
        let value = row[fk.column_index as int];
        exists|answer: Result<bool, Error>|
            #[trigger] may_hold(
                probe,
                fk.referenced_table,
                fk.referenced_column,
                value,
                answer,
            ) && r == child_verdict(table, fk, value, answer)
    }
}

pub open spec fn child_key_may<E: Fn(&str, &str, &Datum) -> Result<bool, Error>>(
    table: Seq<char>,
    schema: SchemaView,
    row: Seq<Datum>,
    probe: E,
) -> spec_fn(int, Option<ErrorView>) -> bool {
    |k: int, r: Option<ErrorView>| child_key_ends(table, schema.foreign_keys[k], row, probe, r)
}

/// Whether the check of a changed row can end so.
pub open spec fn new_row_ends<E: Fn(&str, &str, &Datum) -> Result<bool, Error>>(
    table: Seq<char>,
    schema: SchemaView,
    change: RowChange,
    probe: E,
    r: Option<ErrorView>,
) -> bool {
    match change.new {
        None => r is None,
        Some(row) => if change.verdict is Err {
            r == refusal(change.verdict)
        } else {
            may_end(
                schema.foreign_keys.len() as int,
                child_key_may(table, schema, row@, probe),
                r,
            )
        },
    }
}

pub open spec fn new_row_may<E: Fn(&str, &str, &Datum) -> Result<bool, Error>>(
    table: TableChanges,
    probe: E,
) -> spec_fn(int, Option<ErrorView>) -> bool {
    |i: int, r: Option<ErrorView>|
        new_row_ends(table.name@, table.schema@, table.rows@[i], probe, r)
}

/// Whether the check of a table's new rows can end so.
pub open spec fn new_rows_end<E: Fn(&str, &str, &Datum) -> Result<bool, Error>>(
    table: TableChanges,
    probe: E,
    r: Option<ErrorView>,
) -> bool {
    if table.rows@.len() > 0 && table.binding is Err {
        r == refusal(table.binding)
    } else {
        may_end(table.rows@.len() as int, new_row_may(table, probe), r)
    }
}

pub open spec fn new_rows_may<E: Fn(&str, &str, &Datum) -> Result<bool, Error>>(
    tables: Seq<TableChanges>,
    probe: E,
) -> spec_fn(int, Option<ErrorView>) -> bool {
    |t: int, r: Option<ErrorView>| new_rows_end(tables[t], probe, r)
}

fn check_child_key<E: Fn(&str, &str, &Datum) -> Result<bool, Error>>(
    table: &str,
    fk: &ForeignKeyConstraint,
    row: &Row,
    probe: &E,
) -> (r: Result<(), Error>)
    requires
        is_value_probe(*probe),
    ensures
        child_key_ends(table@, fk@, row@, *probe, refusal(r)),
{
    if fk.column_index >= row.len() {
        return Err(missing_key(table, fk));
    }
    let value: &Datum = &row[fk.column_index];
    if value.is_null {
        return Ok(());
    }
    match ask(probe, fk.referenced_table.as_str(), fk.referenced_column.as_str(), value) {
        Err(error) => Err(error),
        Ok(found) => if found {
            Ok(())
        } else {
            Err(
                Error::ForeignKeyViolation {
                    table: String::from_str(table),
                    column: fk.column_name.clone(),
                    referenced_table: fk.referenced_table.clone(),
                    referenced_column: fk.referenced_column.clone(),
                    detail: String::from_str("referenced row with ").concat(
                        fk.referenced_column.as_str(),
                    ).concat(" = ").concat(value.text.as_str()).concat(
                        " does not exist at commit",
                    ),
                },
            )
        },
    }
}

fn check_new_row<E: Fn(&str, &str, &Datum) -> Result<bool, Error>>(
    table: &str,
    schema: &Schema,
    change: &RowChange,
    probe: &E,
) -> (r: Result<(), Error>)
    requires
        is_value_probe(*probe),
    ensures
        new_row_ends(table@, schema@, *change, *probe, refusal(r)),
{
    let row: &Row = match &change.new {
        Some(row) => row,
        None => {
            return Ok(());
        },
    };
    if let Err(error) = &change.verdict {
        return Err(error.duplicate());
    }
    let ghost n = schema@.foreign_keys.len() as int;
    let ghost may = child_key_may(table@, schema@, row@, *probe);
    let mut k: usize = 0;
    while k < schema.foreign_keys.len()
        invariant
            0 <= k <= schema.foreign_keys@.len() == n,
            n == schema@.foreign_keys.len(),
            is_value_probe(*probe),
            change.new == Some(*row),
            change.verdict is Ok,
            may == child_key_may(table@, schema@, row@, *probe),
            forall|m: int| 0 <= m < k ==> #[trigger] may(m, None),
        decreases schema.foreign_keys@.len() - k,
    {
        assert(schema@.foreign_keys[k as int] == schema.foreign_keys@[k as int]@);
        let r: Result<(), Error> = check_child_key(table, &schema.foreign_keys[k], row, probe);
        assert(may(k as int, refusal(r)));
        if r.is_err() {
            assert(may_end(n, may, refusal(r)));
            return r;
        }
        k = k + 1;
    }
    assert(may_end(n, may, None));
    Ok(())
}

fn check_new_rows_of<E: Fn(&str, &str, &Datum) -> Result<bool, Error>>(
    table: &TableChanges,
    probe: &E,
) -> (r: Result<(), Error>)
    requires
        is_value_probe(*probe),
    ensures
        new_rows_end(*table, *probe, refusal(r)),
{
    if table.rows.len() > 0 {
        if let Err(error) = &table.binding {
            return Err(error.duplicate());
        }
    }
    let ghost n = table.rows@.len() as int;
    let ghost may = new_row_may(*table, *probe);
    let mut i: usize = 0;
    while i < table.rows.len()
        invariant
            0 <= i <= table.rows@.len() == n,
            is_value_probe(*probe),
            n > 0 ==> table.binding is Ok,
            may == new_row_may(*table, *probe),
            forall|m: int| 0 <= m < i ==> #[trigger] may(m, None),
        decreases table.rows@.len() - i,
    {
        let r: Result<(), Error> = check_new_row(
            table.name.as_str(),
            &table.schema,
            &table.rows[i],
            probe,
        );
        assert(may(i as int, refusal(r)));
        if r.is_err() {
            assert(may_end(n, may, refusal(r)));
            return r;
        }
        i = i + 1;
    }
    assert(may_end(n, may, None));
    Ok(())
}

fn check_new_rows<E: Fn(&str, &str, &Datum) -> Result<bool, Error>>(
    tables: &Vec<TableChanges>,
    probe: &E,
) -> (r: Result<(), Error>)
    requires
        is_value_probe(*probe),
    ensures
        may_end(tables@.len() as int, new_rows_may(tables@, *probe), refusal(r)),
{
    let ghost n = tables@.len() as int;
    let ghost may = new_rows_may(tables@, *probe);
    let mut t: usize = 0;
    while t < tables.len()
        invariant
            0 <= t <= tables@.len() == n,
            is_value_probe(*probe),
            may == new_rows_may(tables@, *probe),
            forall|m: int| 0 <= m < t ==> #[trigger] may(m, None),
        decreases tables@.len() - t,
    {
        let r: Result<(), Error> = check_new_rows_of(&tables[t], probe);
        assert(may(t as int, refusal(r)));
        if r.is_err() {
            assert(may_end(n, may, refusal(r)));
            return r;
        }
        t = t + 1;
    }
    assert(may_end(n, may, None));
    Ok(())
}

pub open spec fn parent_error(
    child: SchemaView,
    fk: ForeignKeyView,
    parent: Seq<char>,
    value: Datum,
) -> ErrorView {
    ErrorView::ForeignKeyViolation(
        child.table_name,
        fk.column_name,
        parent,
        fk.referenced_column,
        "referencing rows still exist for "@ + fk.referenced_column + " = "@ + value.text@
            + " at commit"@,
    )
}

/// Whether a row's value at a column is another one than before, or gone.
pub open spec fn gives_up(change: RowChange, column: int) -> bool {
    &&& change.old matches Some(old_row) && 0 <= column < old_row@.len() && {
        let value = old_row@[column];
        &&& !value.is_null
        &&& !(change.new matches Some(new_row) && column < new_row@.len() && {
            &&& new_row@[column].key == value.key
            &&& !new_row@[column].is_null
        })
    }
}

/// Whether the check of a row that gives up a key can end so. A key that
/// another row of the transaction's final state holds is not given up: a
/// rewritten cold row is a removal plus a new row. Only behind that are the
/// children looked up.
pub open spec fn given_up_ends<E: Fn(&str, &str, &Datum) -> Result<bool, Error>>(
    parent: Seq<char>,
    child: SchemaView,
    fk: ForeignKeyView,
    column: int,
    change: RowChange,
    probe: E,
    r: Option<ErrorView>,
) -> bool {
    if !gives_up(change, column) {
        r is None
    } else {
        let value = change.old->Some_0@[column];
        exists|kept: Result<bool, Error>|
            #[trigger] may_hold(probe, parent, fk.referenced_column, value, kept) && match kept {
                Err(e) => r == Some(e@),
                Ok(true) => r is None,
                Ok(false) => exists|used: Result<bool, Error>|
                    #[trigger] may_hold(probe, child.table_name, fk.column_name, value, used)
                        && match used {
                        Err(e) => r == Some(e@),
                        Ok(true) => r == Some(parent_error(child, fk, parent, value)),
                        Ok(false) => r is None,
                    },
            }
    }
}

pub open spec fn given_up_may<E: Fn(&str, &str, &Datum) -> Result<bool, Error>>(
    table: TableChanges,
    child: SchemaView,
    fk: ForeignKeyView,
    column: int,
    probe: E,
) -> spec_fn(int, Option<ErrorView>) -> bool {
    |i: int, r: Option<ErrorView>|
        given_up_ends(table.name@, child, fk, column, table.rows@[i], probe, r)
}

/// Whether the check of one foreign key on its parent table can end so.
pub open spec fn parent_key_ends<E: Fn(&str, &str, &Datum) -> Result<bool, Error>>(
    table: TableChanges,
    child: SchemaView,
    fk: ForeignKeyView,
    probe: E,
    r: Option<ErrorView>,
) -> bool {
    if !same_ignoring_ascii_case(fk.referenced_table, table.name@) {
        r is None
    } else {
        match column_position(table.schema@, fk.referenced_column) {
            None => r == Some(ErrorView::ColumnNotFound(fk.referenced_column)),
            Some(column) => may_end(
                table.rows@.len() as int,
                given_up_may(table, child, fk, column, probe),
                r,
            ),
        }
    }
}

pub open spec fn parent_key_may<E: Fn(&str, &str, &Datum) -> Result<bool, Error>>(
    table: TableChanges,
    child: SchemaView,
    probe: E,
) -> spec_fn(int, Option<ErrorView>) -> bool {
    |k: int, r: Option<ErrorView>| parent_key_ends(table, child, child.foreign_keys[k], probe, r)
}

pub open spec fn parent_child_may<E: Fn(&str, &str, &Datum) -> Result<bool, Error>>(
    table: TableChanges,
    schemas: Seq<Schema>,
    probe: E,
) -> spec_fn(int, Option<ErrorView>) -> bool {
    |c: int, r: Option<ErrorView>|
        may_end(
            schemas[c]@.foreign_keys.len() as int,
            parent_key_may(table, schemas[c]@, probe),
            r,
        )
}

pub open spec fn parents_may<E: Fn(&str, &str, &Datum) -> Result<bool, Error>>(
    tables: Seq<TableChanges>,
    schemas: Seq<Schema>,
    probe: E,
) -> spec_fn(int, Option<ErrorView>) -> bool {
    |t: int, r: Option<ErrorView>|
        if tables[t].rows@.len() == 0 {
            r is None
        } else {
            may_end(schemas.len() as int, parent_child_may(tables[t], schemas, probe), r)
        }
}

fn check_given_up<E: Fn(&str, &str, &Datum) -> Result<bool, Error>>(
    parent: &str,
    child: &Schema,
    fk: &ForeignKeyConstraint,
    column: usize,
    change: &RowChange,
    probe: &E,
) -> (r: Result<(), Error>)
    requires
        is_value_probe(*probe),
    ensures
        given_up_ends(parent@, child@, fk@, column as int, *change, *probe, refusal(r)),
{
    let old_row: &Row = match &change.old {
        Some(row) => row,
        None => {
            return Ok(());
        },
    };
    if column >= old_row.len() || old_row[column].is_null {
        return Ok(());
    }
    let value: &Datum = &old_row[column];
    if let Some(new_row) = &change.new {
        if column < new_row.len() && new_row[column].key == value.key && !new_row[column].is_null {
            return Ok(());
        }
    }
    assert(gives_up(*change, column as int));
    match ask(probe, parent, fk.referenced_column.as_str(), value) {
        Err(error) => {
            return Err(error);
        },
        Ok(found) => {
            if found {
                return Ok(());
            }
        },
    }
    match ask(probe, child.table_name.as_str(), fk.column_name.as_str(), value) {
        Err(error) => Err(error),
        Ok(found) => if found {
            Err(
                Error::ForeignKeyViolation {
                    table: child.table_name.clone(),
                    column: fk.column_name.clone(),
                    referenced_table: String::from_str(parent),
                    referenced_column: fk.referenced_column.clone(),
                    detail: String::from_str("referencing rows still exist for ").concat(
                        fk.referenced_column.as_str(),
                    ).concat(" = ").concat(value.text.as_str()).concat(" at commit"),
                },
            )
        } else {
            Ok(())
        },
    }
}

fn check_parent_key<E: Fn(&str, &str, &Datum) -> Result<bool, Error>>(
    table: &TableChanges,
    child: &Schema,
    fk: &ForeignKeyConstraint,
    probe: &E,
) -> (r: Result<(), Error>)
    requires
        is_value_probe(*probe),
    ensures
        parent_key_ends(*table, child@, fk@, *probe, refusal(r)),
{
    if !eq_ignore_ascii_case(fk.referenced_table.as_str(), table.name.as_str()) {
        return Ok(());
    }
    let column: usize = match table.schema.get_column_index(fk.referenced_column.as_str()) {
        Some(column) => column,
        None => {
            return Err(Error::ColumnNotFound(fk.referenced_column.clone()));
        },
    };
    let ghost n = table.rows@.len() as int;
    let ghost may = given_up_may(*table, child@, fk@, column as int, *probe);
    let mut i: usize = 0;
    while i < table.rows.len()
        invariant
            0 <= i <= table.rows@.len() == n,
            is_value_probe(*probe),
            same_ignoring_ascii_case(fk@.referenced_table, table.name@),
            column_position(table.schema@, fk@.referenced_column) == Some(column as int),
            may == given_up_may(*table, child@, fk@, column as int, *probe),
            forall|m: int| 0 <= m < i ==> #[trigger] may(m, None),
        decreases table.rows@.len() - i,
    {
        let r: Result<(), Error> = check_given_up(
            table.name.as_str(),
            child,
            fk,
            column,
            &table.rows[i],
            probe,
        );
        assert(may(i as int, refusal(r)));
        if r.is_err() {
            assert(may_end(n, may, refusal(r)));
            return r;
        }
        i = i + 1;
    }
    assert(may_end(n, may, None));
    Ok(())
}

fn check_parent_child<E: Fn(&str, &str, &Datum) -> Result<bool, Error>>(
    table: &TableChanges,
    child: &Schema,
    probe: &E,
) -> (r: Result<(), Error>)
    requires
        is_value_probe(*probe),
    ensures
        may_end(
            child@.foreign_keys.len() as int,
            parent_key_may(*table, child@, *probe),
            refusal(r),
        ),
{
    let ghost n = child@.foreign_keys.len() as int;
    let ghost may = parent_key_may(*table, child@, *probe);
    let mut k: usize = 0;
    while k < child.foreign_keys.len()
        invariant
            0 <= k <= child.foreign_keys@.len() == n,
            n == child@.foreign_keys.len(),
            is_value_probe(*probe),
            may == parent_key_may(*table, child@, *probe),
            forall|m: int| 0 <= m < k ==> #[trigger] may(m, None),
        decreases child.foreign_keys@.len() - k,
    {
        assert(child@.foreign_keys[k as int] == child.foreign_keys@[k as int]@);
        let r: Result<(), Error> = check_parent_key(table, child, &child.foreign_keys[k], probe);
        assert(may(k as int, refusal(r)));
        if r.is_err() {
            assert(may_end(n, may, refusal(r)));
            return r;
        }
        k = k + 1;
    }
    assert(may_end(n, may, None));
    Ok(())
}

fn check_parent<E: Fn(&str, &str, &Datum) -> Result<bool, Error>>(
    table: &TableChanges,
    schemas: &Vec<Schema>,
    probe: &E,
) -> (r: Result<(), Error>)
    requires
        is_value_probe(*probe),
    ensures
        may_end(
            schemas@.len() as int,
            parent_child_may(*table, schemas@, *probe),
            refusal(r),
        ),
{
    let ghost n = schemas@.len() as int;
    let ghost may = parent_child_may(*table, schemas@, *probe);
    let mut c: usize = 0;
    while c < schemas.len()
        invariant
            0 <= c <= schemas@.len() == n,
            is_value_probe(*probe),
            may == parent_child_may(*table, schemas@, *probe),
            forall|m: int| 0 <= m < c ==> #[trigger] may(m, None),
        decreases schemas@.len() - c,
    {
        let r: Result<(), Error> = check_parent_child(table, &schemas[c], probe);
        assert(may(c as int, refusal(r)));
        if r.is_err() {
            assert(may_end(n, may, refusal(r)));
            return r;
        }
        c = c + 1;
    }
    assert(may_end(n, may, None));
    Ok(())
}

/// Whether the check of a transaction's rows can end so. First every changed
/// table needs its validator, and every new row has to be valid and to find
/// its parents; then no given-up key may have children. What the probe answers
/// decides, and an error that it gives ends the check with it.
pub open spec fn dml_check_ends<E: Fn(&str, &str, &Datum) -> Result<bool, Error>>(
    tables: Seq<TableChanges>,
    schemas: Seq<Schema>,
    probe: E,
    r: Option<ErrorView>,
) -> bool {
    ends_in_turn(
        |e: Option<ErrorView>| may_end(tables.len() as int, new_rows_may(tables, probe), e),
        |e: Option<ErrorView>|
            may_end(tables.len() as int, parents_may(tables, schemas, probe), e),
        r,
    )
}

/// Revalidates a transaction's rows at the commit boundary; a table without
/// changed rows has nothing to answer for. `schemas` are the published
/// schemas; `value_exists` looks a value up in the transaction's final state.
pub fn validate_pending_dml_constraints<E: Fn(&str, &str, &Datum) -> Result<bool, Error>>(
    tables: &Vec<TableChanges>,
    schemas: &Vec<Schema>,
    value_exists: &E,
) -> (r: Result<(), Error>)
    requires
        is_value_probe(*value_exists),
    ensures
        dml_check_ends(tables@, schemas@, *value_exists, refusal(r)),
{
    let r: Result<(), Error> = check_new_rows(tables, value_exists);
    if r.is_err() {
        return r;
    }
    let ghost n = tables@.len() as int;
    let ghost may = parents_may(tables@, schemas@, *value_exists);
    let mut t: usize = 0;
    while t < tables.len()
        invariant
            0 <= t <= tables@.len() == n,
            is_value_probe(*value_exists),
            may == parents_may(tables@, schemas@, *value_exists),
            may_end(n, new_rows_may(tables@, *value_exists), None),
            forall|m: int| 0 <= m < t ==> #[trigger] may(m, None),
        decreases tables@.len() - t,
    {
        let r: Result<(), Error> = if tables[t].rows.len() == 0 {
            Ok(())
        } else {
            check_parent(&tables[t], schemas, value_exists)
        };
        assert(may(t as int, refusal(r)));
        if r.is_err() {
            assert(may_end(n, may, refusal(r)));
            return r;
        }
        t = t + 1;
    }
    assert(may_end(n, may, None));
    Ok(())
}

/// A row that a scan brought up, with the validator's verdict on it.
#[derive(Debug)]
pub struct ScannedRow {
    pub row: Row,
    pub verdict: Result<(), Error>,
}

pub open spec fn non_null_keys(values: Seq<Datum>, n: int) -> Seq<u64>
    decreases n,
{
    if n <= 0 {
        Seq::empty()
    } else if values[n - 1].is_null {
        non_null_keys(values, n - 1)
    } else {
        non_null_keys(values, n - 1).push(values[n - 1].key)
    }
}

/// The values that a parent column offers.
pub fn parent_domain(values: &Vec<Datum>) -> (keys: Vec<u64>)
    ensures
        keys@ == non_null_keys(values@, values@.len() as int),
{
    let mut keys: Vec<u64> = Vec::new();
    let mut i: usize = 0;
    while i < values.len()
        invariant
            0 <= i <= values@.len(),
            keys@ == non_null_keys(values@, i as int),
        decreases values@.len() - i,
    {
        if !values[i].is_null {
            keys.push(values[i].key);
        }
        i = i + 1;
    }
    keys
}

/// Whether a scanned row lacks the parent of one of its foreign keys.
pub open spec fn scanned_key_refusal(
    table: Seq<char>,
    schema: SchemaView,
    domains: Seq<Vec<u64>>,
    row: Seq<Datum>,
    k: int,
) -> Option<ErrorView> {
    let fk = schema.foreign_keys[k];
    if fk.column_index >= row.len() {
        Some(missing_key_error(table, fk))
    } else {
        let value = row[fk.column_index as int];
        if value.is_null || domains[k]@.contains(value.key) {
            None
        } else {
            Some(
                ErrorView::ForeignKeyViolation(
                    schema.table_name,
                    fk.column_name,
                    fk.referenced_table,
                    fk.referenced_column,
                    "referenced row with "@ + fk.referenced_column + " = "@ + value.text@
                        + " does not exist"@,
                ),
            )
        }
    }
}

pub open spec fn scanned_key_check(
    table: Seq<char>,
    schema: SchemaView,
    domains: Seq<Vec<u64>>,
    row: Seq<Datum>,
) -> spec_fn(int) -> Option<ErrorView> {
    |k: int| scanned_key_refusal(table, schema, domains, row, k)
}

pub open spec fn scanned_row_check(
    table: Seq<char>,
    schema: SchemaView,
    domains: Seq<Vec<u64>>,
    rows: Seq<ScannedRow>,
) -> spec_fn(int) -> Option<ErrorView> {
    |i: int|
        earlier(
            refusal(rows[i].verdict),
            first_refusal(
                0,
                schema.foreign_keys.len() as int,
                scanned_key_check(table, schema, domains, rows[i].row@),
            ),
        )
}

fn check_scanned_key(
    table: &str,
    schema: &Schema,
    domains: &Vec<Vec<u64>>,
    row: &Row,
    k: usize,
) -> (r: Result<(), Error>)
    requires
        k < schema.foreign_keys@.len(),
        domains@.len() == schema.foreign_keys@.len(),
    ensures
        refusal(r) == scanned_key_refusal(table@, schema@, domains@, row@, k as int),
{
    let fk: &ForeignKeyConstraint = &schema.foreign_keys[k];
    assert(schema@.foreign_keys[k as int] == fk@);
    if fk.column_index >= row.len() {
        return Err(missing_key(table, fk));
    }
    let value: &Datum = &row[fk.column_index];
    if value.is_null || holds_key(&domains[k], value.key) {
        return Ok(());
    }
    Err(
        Error::ForeignKeyViolation {
            table: schema.table_name.clone(),
            column: fk.column_name.clone(),
            referenced_table: fk.referenced_table.clone(),
            referenced_column: fk.referenced_column.clone(),
            detail: String::from_str("referenced row with ").concat(
                fk.referenced_column.as_str(),
            ).concat(" = ").concat(value.text.as_str()).concat(" does not exist"),
        },
    )
}

fn check_scanned_row(
    table: &str,
    schema: &Schema,
    domains: &Vec<Vec<u64>>,
    scanned: &ScannedRow,
) -> (r: Result<(), Error>)
    requires
        domains@.len() == schema.foreign_keys@.len(),
    ensures
        refusal(r) == earlier(
            refusal(scanned.verdict),
            first_refusal(
                0,
                schema@.foreign_keys.len() as int,
                scanned_key_check(table@, schema@, domains@, scanned.row@),
            ),
        ),
{
    if let Err(error) = &scanned.verdict {
        return Err(error.duplicate());
    }
    let ghost n = schema@.foreign_keys.len() as int;
    let ghost check = scanned_key_check(table@, schema@, domains@, scanned.row@);
    let mut k: usize = 0;
    while k < schema.foreign_keys.len()
        invariant
            0 <= k <= schema.foreign_keys@.len() == n,
            n == schema@.foreign_keys.len(),
            domains@.len() == schema.foreign_keys@.len(),
            refusal(scanned.verdict) is None,
            check == scanned_key_check(table@, schema@, domains@, scanned.row@),
            first_refusal(0, n, check) == first_refusal(k as int, n, check),
        decreases schema.foreign_keys@.len() - k,
    {
        let r: Result<(), Error> = check_scanned_key(table, schema, domains, &scanned.row, k);
        assert(check(k as int) == refusal(r));
        if r.is_err() {
            return r;
        }
        k = k + 1;
    }
    Ok(())
}

/// Checks all rows of a table whose schema the transaction changes. `domains`
/// holds, for each foreign key, the values its parent column offers; `end`
/// is how the scan ended.
pub fn validate_table_rows(
    table: &str,
    schema: &Schema,
    domains: &Vec<Vec<u64>>,
    rows: &Vec<ScannedRow>,
    end: Result<(), Error>,
) -> (r: Result<(), Error>)
    requires
        domains@.len() == schema.foreign_keys@.len(),
    ensures
        refusal(r) == earlier(
            first_refusal(
                0,
                rows@.len() as int,
                scanned_row_check(table@, schema@, domains@, rows@),
            ),
            refusal(end),
        ),
{
    let ghost n = rows@.len() as int;
    let ghost check = scanned_row_check(table@, schema@, domains@, rows@);
    let mut i: usize = 0;
    while i < rows.len()
        invariant
            0 <= i <= rows@.len() == n,
            domains@.len() == schema.foreign_keys@.len(),
            check == scanned_row_check(table@, schema@, domains@, rows@),
            first_refusal(0, n, check) == first_refusal(i as int, n, check),
        decreases rows@.len() - i,
    {
        let r: Result<(), Error> = check_scanned_row(table, schema, domains, &rows[i]);
        assert(check(i as int) == refusal(r));
        if r.is_err() {
            return r;
        }
        i = i + 1;
    }
    end
}

/// A key that the transaction's final state still holds is never reported,
/// whatever rows refer to it, where looking it up does not fail.
pub proof fn law_relocated_key_is_not_given_up<E: Fn(&str, &str, &Datum) -> Result<bool, Error>>(
    parent: Seq<char>,
    child: SchemaView,
    fk: ForeignKeyView,
    column: int,
    change: RowChange,
    probe: E,
    r: Option<ErrorView>,
)
    requires
        gives_up(change, column),
        forall|answer: Result<bool, Error>| #[trigger]
            may_hold(
                probe,
                parent,
                fk.referenced_column,
                change.old->Some_0@[column],
                answer,
            ) ==> answer == Ok::<bool, Error>(true),
        given_up_ends(parent, child, fk, column, change, probe, r),
    ensures
        r is None,
{
}

/// Whether no look-up of a value fails.
pub open spec fn never_fails<E: Fn(&str, &str, &Datum) -> Result<bool, Error>>(probe: E) -> bool {
    forall|table: Seq<char>, column: Seq<char>, value: Datum, answer: Result<bool, Error>|
        #[trigger] may_hold(probe, table, column, value, answer) ==> answer is Ok
}

proof fn lemma_one_answer<E: Fn(&str, &str, &Datum) -> Result<bool, Error>>(
    probe: E,
    table: Seq<char>,
    column: Seq<char>,
    value: Datum,
    a: Result<bool, Error>,
    b: Result<bool, Error>,
)
    requires
        is_value_probe(probe),
        never_fails(probe),
        may_hold(probe, table, column, value, a),
        may_hold(probe, table, column, value, b),
    ensures
        a == b,
{
    assert(may_hold(probe, table, column, value, Ok(a->Ok_0)));
    assert(may_hold(probe, table, column, value, Ok(b->Ok_0)));
}

proof fn lemma_new_rows_are_decided<E: Fn(&str, &str, &Datum) -> Result<bool, Error>>(
    table: TableChanges,
    probe: E,
    a: Option<ErrorView>,
    b: Option<ErrorView>,
)
    requires
        is_value_probe(probe),
        never_fails(probe),
        new_rows_end(table, probe, a),
        new_rows_end(table, probe, b),
    ensures
        a == b,
{
    if !(table.rows@.len() > 0 && table.binding is Err) {
        let outer = new_row_may(table, probe);
        assert forall|i: int, x: Option<ErrorView>, y: Option<ErrorView>|
            0 <= i < table.rows@.len() && #[trigger] outer(i, x) && #[trigger] outer(
                i,
                y,
            ) implies x == y by {
            let change = table.rows@[i];
            if change.new is Some && change.verdict is Ok {
                let row = change.new->Some_0@;
                let keys = table.schema@.foreign_keys;
                let inner = child_key_may(table.name@, table.schema@, row, probe);
                assert forall|k: int, v: Option<ErrorView>, w: Option<ErrorView>|
                    0 <= k < keys.len() && #[trigger] inner(k, v) && #[trigger] inner(
                        k,
                        w,
                    ) implies v == w by {
                    let fk = keys[k];
                    if fk.column_index < row.len() && !row[fk.column_index as int].is_null {
                        let value = row[fk.column_index as int];
                        let p = choose|answer: Result<bool, Error>|
                            #[trigger] may_hold(
                                probe,
                                fk.referenced_table,
                                fk.referenced_column,
                                value,
                                answer,
                            ) && v == child_verdict(table.name@, fk, value, answer);
                        let q = choose|answer: Result<bool, Error>|
                            #[trigger] may_hold(
                                probe,
                                fk.referenced_table,
                                fk.referenced_column,
                                value,
                                answer,
                            ) && w == child_verdict(table.name@, fk, value, answer);
                        lemma_one_answer(
                            probe,
                            fk.referenced_table,
                            fk.referenced_column,
                            value,
                            p,
                            q,
                        );
                    }
                }
                lemma_one_end(keys.len() as int, inner, x, y);
            }
        }
        lemma_one_end(table.rows@.len() as int, outer, a, b);
    }
}

proof fn lemma_given_up_is_decided<E: Fn(&str, &str, &Datum) -> Result<bool, Error>>(
    parent: Seq<char>,
    child: SchemaView,
    fk: ForeignKeyView,
    column: int,
    change: RowChange,
    probe: E,
    a: Option<ErrorView>,
    b: Option<ErrorView>,
)
    requires
        is_value_probe(probe),
        never_fails(probe),
        given_up_ends(parent, child, fk, column, change, probe, a),
        given_up_ends(parent, child, fk, column, change, probe, b),
    ensures
        a == b,
{
    if gives_up(change, column) {
        let value = change.old->Some_0@[column];
        assert forall|p: Result<bool, Error>, q: Result<bool, Error>|
            #[trigger] may_hold(probe, parent, fk.referenced_column, value, p)
                && #[trigger] may_hold(
                probe,
                parent,
                fk.referenced_column,
                value,
                q,
            ) implies p == q by {
            lemma_one_answer(probe, parent, fk.referenced_column, value, p, q);
        }
        assert forall|p: Result<bool, Error>, q: Result<bool, Error>|
            #[trigger] may_hold(probe, child.table_name, fk.column_name, value, p)
                && #[trigger] may_hold(
                probe,
                child.table_name,
                fk.column_name,
                value,
                q,
            ) implies p == q by {
            lemma_one_answer(probe, child.table_name, fk.column_name, value, p, q);
        }
    }
}

proof fn lemma_parent_is_decided<E: Fn(&str, &str, &Datum) -> Result<bool, Error>>(
    table: TableChanges,
    child: SchemaView,
    probe: E,
    a: Option<ErrorView>,
    b: Option<ErrorView>,
)
    requires
        is_value_probe(probe),
        never_fails(probe),
        may_end(child.foreign_keys.len() as int, parent_key_may(table, child, probe), a),
        may_end(child.foreign_keys.len() as int, parent_key_may(table, child, probe), b),
    ensures
        a == b,
{
    let outer = parent_key_may(table, child, probe);
    assert forall|k: int, x: Option<ErrorView>, y: Option<ErrorView>|
        0 <= k < child.foreign_keys.len() && #[trigger] outer(k, x) && #[trigger] outer(
            k,
            y,
        ) implies x == y by {
        let fk = child.foreign_keys[k];
        if same_ignoring_ascii_case(fk.referenced_table, table.name@) {
            if let Some(column) = column_position(table.schema@, fk.referenced_column) {
                let inner = given_up_may(table, child, fk, column, probe);
                assert forall|i: int, v: Option<ErrorView>, w: Option<ErrorView>|
                    0 <= i < table.rows@.len() && #[trigger] inner(i, v) && #[trigger] inner(
                        i,
                        w,
                    ) implies v == w by {
                    lemma_given_up_is_decided(
                        table.name@,
                        child,
                        fk,
                        column,
                        table.rows@[i],
                        probe,
                        v,
                        w,
                    );
                }
                lemma_one_end(table.rows@.len() as int, inner, x, y);
            }
        }
    }
    lemma_one_end(child.foreign_keys.len() as int, outer, a, b);
}

/// Where no look-up fails, the check of a transaction's rows has one end.
pub proof fn law_dml_check_is_decided<E: Fn(&str, &str, &Datum) -> Result<bool, Error>>(
    tables: Seq<TableChanges>,
    schemas: Seq<Schema>,
    probe: E,
    a: Option<ErrorView>,
    b: Option<ErrorView>,
)
    requires
        is_value_probe(probe),
        never_fails(probe),
        dml_check_ends(tables, schemas, probe, a),
        dml_check_ends(tables, schemas, probe, b),
    ensures
        a == b,
{
    let n = tables.len() as int;
    let news = new_rows_may(tables, probe);
    assert forall|t: int, x: Option<ErrorView>, y: Option<ErrorView>|
        0 <= t < n && #[trigger] news(t, x) && #[trigger] news(t, y) implies x == y by {
        lemma_new_rows_are_decided(tables[t], probe, x, y);
    }
    let parents = parents_may(tables, schemas, probe);
    assert forall|t: int, x: Option<ErrorView>, y: Option<ErrorView>|
        0 <= t < n && #[trigger] parents(t, x) && #[trigger] parents(t, y) implies x == y by {
        if tables[t].rows@.len() > 0 {
            let children = parent_child_may(tables[t], schemas, probe);
            assert forall|c: int, v: Option<ErrorView>, w: Option<ErrorView>|
                0 <= c < schemas.len() && #[trigger] children(c, v) && #[trigger] children(
                    c,
                    w,
                ) implies v == w by {
                lemma_parent_is_decided(tables[t], schemas[c]@, probe, v, w);
            }
            lemma_one_end(schemas.len() as int, children, x, y);
        }
    }
    if may_end(n, news, None) {
        if may_end(n, news, a) {
            lemma_one_end(n, news, a, None);
        }
        if may_end(n, news, b) {
            lemma_one_end(n, news, b, None);
        }
        if may_end(n, parents, a) && may_end(n, parents, b) {
            lemma_one_end(n, parents, a, b);
        }
    } else {
        lemma_one_end(n, news, a, b);
    }
}

} // verus!
