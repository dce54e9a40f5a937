//! What logging and publishing the rows of a transaction are for.
use super::dml::changed_positions;
use super::dml::delete_operations;
use super::dml::failed_positions;
use super::dml::fenced_positions;
use super::dml::first_failure;
use super::dml::hot_operations;
use super::dml::logged_operations;
use super::dml::managed_positions;
use super::dml::rollback_positions;
use super::dml::table_names;
use super::dml::with_cold_operations;
use super::dml::with_hot_operations;
use super::dml::ColdDelete;
use super::dml::DmlOperation;
use super::dml::PendingVersion;
use super::dml::TouchedTable;
use super::order::is_name_order;
use super::order::lists_position;
use crate::error::refusal;
use crate::error::Error;
use vstd::prelude::*;


verus! {

/// An operation notes a version: a delete exactly where the version is one,
/// and dated by its transaction exactly then.
pub open spec fn notes_version(op: DmlOperation, id: u128, version: PendingVersion) -> bool {
    &&& op.table_id == id
    &&& op.row_id == version.row_id
    &&& op.is_delete == version.is_deleted
    &&& op.txn_id == version.txn_id
    &&& version.is_deleted ==> op.deleted_at_txn_id == version.txn_id
    &&& !version.is_deleted ==> op.deleted_at_txn_id == 0
    &&& op.data == Some(version.data)
    &&& op.create_time == version.create_time
}

/// An operation notes that a transaction deletes a cold row.
pub open spec fn notes_delete(
    op: DmlOperation,
    txn_id: i64,
    id: u128,
    cold: ColdDelete,
) -> bool {
    &&& op.table_id == id
    &&& op.row_id == cold.row_id
    &&& op.is_delete
    &&& op.txn_id == txn_id
    &&& op.deleted_at_txn_id == txn_id
    &&& op.data is None
    &&& op.create_time == cold.at
}

/// The deletes of a table's cold rows stand from `base` on.
pub open spec fn deletes_stand_at(
    ops: Seq<DmlOperation>,
    base: int,
    txn_id: i64,
    id: u128,
    rows: Seq<ColdDelete>,
) -> bool {
    &&& 0 <= base
    &&& base + rows.len() <= ops.len()
    &&& forall|d: int|
        0 <= d < rows.len() ==> notes_delete(ops[base + d], txn_id, id, #[trigger] rows[d])
}

/// A table's versions stand from `base` on.
pub open spec fn versions_stand_at(
    ops: Seq<DmlOperation>,
    base: int,
    id: u128,
    versions: Seq<PendingVersion>,
) -> bool {
    &&& 0 <= base
    &&& base + versions.len() <= ops.len()
    &&& forall|v: int|
        0 <= v < versions.len() ==> notes_version(ops[base + v], id, #[trigger] versions[v])
}

/// How many cold deletes of a hot table are logged.
pub open spec fn cold_count(table: TouchedTable) -> int {
    if table.has_manager {
        table.tombstones@.len() as int
    } else {
        0
    }
}

/// All of a hot table stands from `base` on: its cold deletes, and behind them
/// its versions.
pub open spec fn stands_at(
    ops: Seq<DmlOperation>,
    base: int,
    txn_id: i64,
    table: TouchedTable,
    id: u128,
) -> bool {
    &&& table.has_manager ==> deletes_stand_at(ops, base, txn_id, id, table.tombstones@)
    &&& versions_stand_at(ops, base + cold_count(table), id, table.versions@)
}

/// A table with hot changes of this identity.
pub open spec fn is_hot_as(table: TouchedTable, id: u128) -> bool {
    &&& table.has_local_changes
    &&& table.own_id == Some(Ok::<u128, String>(id))
}

/// A table with cold changes alone, of this identity.
pub open spec fn is_cold_as(table: TouchedTable, id: u128) -> bool {
    &&& !(table.has_local_changes && table.own_id is Some)
    &&& table.has_manager
    &&& table.published_id == Some(Ok::<u128, String>(id))
}

/// An operation comes from something that the transaction did to a table.
pub open spec fn comes_from(
    op: DmlOperation,
    txn_id: i64,
    table: TouchedTable,
) -> bool {
    ||| exists|id: u128, v: int|
        #[trigger] is_hot_as(table, id) && 0 <= v < table.versions@.len() && notes_version(
            op,
            id,
            #[trigger] table.versions@[v],
        )
    ||| exists|id: u128, d: int|
        table.has_manager && (is_hot_as(table, id) || is_cold_as(table, id)) && 0 <= d
            < table.tombstones@.len() && #[trigger] notes_delete(
            op,
            txn_id,
            id,
            table.tombstones@[d],
        )
}

/// An operation comes from something that the transaction did.
pub open spec fn is_accounted(
    op: DmlOperation,
    txn_id: i64,
    tables: Seq<TouchedTable>,
) -> bool {
    exists|t: int| 0 <= t < tables.len() && comes_from(op, txn_id, #[trigger] tables[t])
}

spec fn all_accounted(
    ops: Seq<DmlOperation>,
    txn_id: i64,
    tables: Seq<TouchedTable>,
) -> bool {
    forall|n: int| 0 <= n < ops.len() ==> is_accounted(#[trigger] ops[n], txn_id, tables)
}

proof fn lemma_hot(
    txn_id: i64,
    acc: Seq<DmlOperation>,
    tables: Seq<TouchedTable>,
    order: Seq<usize>,
    i: int,
)
    requires
        0 <= i <= order.len(),
        with_hot_operations(txn_id, acc, tables, order, i) is Ok,
        forall|a: int| 0 <= a < order.len() ==> (#[trigger] order[a]) < tables.len(),
        all_accounted(acc, txn_id, tables),
    ensures
        ({
            let out = with_hot_operations(txn_id, acc, tables, order, i)->Ok_0;
            &&& acc.is_prefix_of(out)
            &&& forall|a: int, id: u128|
                i <= a < order.len() && #[trigger] is_hot_as(
                    tables[#[trigger] order[a] as int],
                    id,
                ) ==> exists|base: int|
                    acc.len() <= base && #[trigger] stands_at(
                        out,
                        base,
                        txn_id,
                        tables[order[a] as int],
                        id,
                    )
            &&& all_accounted(out, txn_id, tables)
        }),
    decreases order.len() - i,
{
    if i < order.len() {
        let table = tables[order[i] as int];
        if table.has_local_changes && table.own_id is Some {
            let id = table.own_id->Some_0->Ok_0;
            assert(is_hot_as(table, id));
            let block = hot_operations(txn_id, table, id);
            let next = acc + block;
            let cold = cold_count(table);
            assert forall|n: int| 0 <= n < next.len() implies is_accounted(
                #[trigger] next[n],
                txn_id,
                tables,
            ) by {
                if n < acc.len() {
                    assert(next[n] == acc[n]);
                    assert(is_accounted(acc[n], txn_id, tables));
                } else {
                    let m = n - acc.len();
                    assert(next[n] == block[m]);
                    if m < cold {
                        assert(notes_delete(next[n], txn_id, id, table.tombstones@[m]));
                    } else {
                        assert(notes_version(next[n], id, table.versions@[m - cold]));
                    }
                    assert(comes_from(next[n], txn_id, tables[order[i] as int]));
                }
            }
            lemma_hot(txn_id, next, tables, order, i + 1);
            let out = with_hot_operations(txn_id, next, tables, order, i + 1)->Ok_0;
            assert(acc.is_prefix_of(out)) by {
                assert(next.is_prefix_of(out));
                assert(acc =~= out.subrange(0, acc.len() as int)) by {
                    assert(next =~= out.subrange(0, next.len() as int));
                    assert forall|n: int| 0 <= n < acc.len() implies acc[n] == out[n] by {
                        assert(next[n] == out.subrange(0, next.len() as int)[n]);
                    }
                }
            }
            let base = acc.len() as int;
            assert(stands_at(out, base, txn_id, table, id)) by {
                assert forall|n: int| 0 <= n < next.len() implies next[n] == out[n] by {
                    assert(next =~= out.subrange(0, next.len() as int));
                    assert(next[n] == out.subrange(0, next.len() as int)[n]);
                }
                assert forall|d: int| 0 <= d < cold implies notes_delete(
                    out[base + d],
                    txn_id,
                    id,
                    #[trigger] table.tombstones@[d],
                ) by {
                    assert(next[base + d] == block[d]);
                }
                assert forall|v: int| 0 <= v < table.versions@.len() implies notes_version(
                    out[base + cold + v],
                    id,
                    #[trigger] table.versions@[v],
                ) by {
                    assert(next[base + cold + v] == block[cold + v]);
                }
            }
            assert forall|a: int, other: u128|
                i <= a < order.len() && #[trigger] is_hot_as(
                    tables[#[trigger] order[a] as int],
                    other,
                ) implies exists|at: int|
                acc.len() <= at && #[trigger] stands_at(
                    out,
                    at,
                    txn_id,
                    tables[order[a] as int],
                    other,
                ) by {
                if a == i {
                    assert(other == id);
                    assert(stands_at(out, base, txn_id, tables[order[a] as int], other));
                } else {
                    let at = choose|at: int|
                        next.len() <= at && #[trigger] stands_at(
                            out,
                            at,
                            txn_id,
                            tables[order[a] as int],
                            other,
                        );
                    assert(acc.len() <= at);
                }
            }
        } else {
            lemma_hot(txn_id, acc, tables, order, i + 1);
        }
    } else {
        assert(acc =~= acc.subrange(0, acc.len() as int));
    }
}

proof fn lemma_cold(
    txn_id: i64,
    acc: Seq<DmlOperation>,
    tables: Seq<TouchedTable>,
    order: Seq<usize>,
    i: int,
)
    requires
        0 <= i <= order.len(),
        with_cold_operations(txn_id, acc, tables, order, i) is Ok,
        forall|a: int| 0 <= a < order.len() ==> (#[trigger] order[a]) < tables.len(),
        all_accounted(acc, txn_id, tables),
    ensures
        ({
            let out = with_cold_operations(txn_id, acc, tables, order, i)->Ok_0;
            &&& acc.is_prefix_of(out)
            &&& forall|a: int, id: u128|
                i <= a < order.len() && #[trigger] is_cold_as(
                    tables[#[trigger] order[a] as int],
                    id,
                ) ==> exists|base: int|
                    acc.len() <= base && #[trigger] deletes_stand_at(
                        out,
                        base,
                        txn_id,
                        id,
                        tables[order[a] as int].tombstones@,
                    )
            &&& all_accounted(out, txn_id, tables)
        }),
    decreases order.len() - i,
{
    if i < order.len() {
        let table = tables[order[i] as int];
        if !(table.has_local_changes && table.own_id is Some) && table.has_manager {
            let id = table.published_id->Some_0->Ok_0;
            assert(is_cold_as(table, id));
            let block = delete_operations(txn_id, id, table.tombstones@);
            let next = acc + block;
            assert forall|n: int| 0 <= n < next.len() implies is_accounted(
                #[trigger] next[n],
                txn_id,
                tables,
            ) by {
                if n < acc.len() {
                    assert(next[n] == acc[n]);
                    assert(is_accounted(acc[n], txn_id, tables));
                } else {
                    let m = n - acc.len();
                    assert(next[n] == block[m]);
                    assert(notes_delete(next[n], txn_id, id, table.tombstones@[m]));
                    assert(comes_from(next[n], txn_id, tables[order[i] as int]));
                }
            }
            lemma_cold(txn_id, next, tables, order, i + 1);
            let out = with_cold_operations(txn_id, next, tables, order, i + 1)->Ok_0;
            let base = acc.len() as int;
            assert forall|n: int| 0 <= n < next.len() implies next[n] == out[n] by {
                assert(next =~= out.subrange(0, next.len() as int));
                assert(next[n] == out.subrange(0, next.len() as int)[n]);
            }
            assert(next.len() <= out.len()) by {
                assert(next.is_prefix_of(out));
            }
            assert(acc.is_prefix_of(out)) by {
                assert(acc =~= out.subrange(0, acc.len() as int)) by {
                    assert forall|n: int| 0 <= n < acc.len() implies acc[n] == out[n] by {
                        assert(next[n] == acc[n]);
                    }
                }
            }
            assert(deletes_stand_at(out, base, txn_id, id, table.tombstones@)) by {
                assert forall|d: int| 0 <= d < table.tombstones@.len() implies notes_delete(
                    out[base + d],
                    txn_id,
                    id,
                    #[trigger] table.tombstones@[d],
                ) by {
                    assert(next[base + d] == block[d]);
                }
            }
            assert forall|a: int, other: u128|
                i <= a < order.len() && #[trigger] is_cold_as(
                    tables[#[trigger] order[a] as int],
                    other,
                ) implies exists|at: int|
                acc.len() <= at && #[trigger] deletes_stand_at(
                    out,
                    at,
                    txn_id,
                    other,
                    tables[order[a] as int].tombstones@,
                ) by {
                if a == i {
                    assert(other == id);
                    assert(deletes_stand_at(
                        out,
                        base,
                        txn_id,
                        other,
                        tables[order[a] as int].tombstones@,
                    ));
                } else {
                    let at = choose|at: int|
                        next.len() <= at && #[trigger] deletes_stand_at(
                            out,
                            at,
                            txn_id,
                            other,
                            tables[order[a] as int].tombstones@,
                        );
                    assert(acc.len() <= at);
                }
            }
        } else {
            lemma_cold(txn_id, acc, tables, order, i + 1);
        }
    } else {
        assert(acc =~= acc.subrange(0, acc.len() as int));
    }
}

proof fn lemma_logged(txn_id: i64, tables: Seq<TouchedTable>, order: Seq<usize>)
    requires
        is_name_order(table_names(tables), order),
        logged_operations(txn_id, tables, order) is Ok,
    ensures
        ({
            let hot = with_hot_operations(txn_id, Seq::empty(), tables, order, 0)->Ok_0;
            let out = logged_operations(txn_id, tables, order)->Ok_0;
            &&& hot.is_prefix_of(out)
            &&& forall|a: int, id: u128|
                0 <= a < order.len() && #[trigger] is_hot_as(
                    tables[#[trigger] order[a] as int],
                    id,
                ) ==> exists|base: int| #[trigger]
                    stands_at(out, base, txn_id, tables[order[a] as int], id)
            &&& forall|a: int, id: u128|
                0 <= a < order.len() && #[trigger] is_cold_as(
                    tables[#[trigger] order[a] as int],
                    id,
                ) ==> exists|base: int| #[trigger]
                    deletes_stand_at(
                        out,
                        base,
                        txn_id,
                        id,
                        tables[order[a] as int].tombstones@,
                    )
            &&& all_accounted(out, txn_id, tables)
        }),
{
    assert forall|a: int| 0 <= a < order.len() implies (#[trigger] order[a]) < tables.len() by {
        assert(order[a] < table_names(tables).len());
    }
    lemma_hot(txn_id, Seq::empty(), tables, order, 0);
    let hot = with_hot_operations(txn_id, Seq::empty(), tables, order, 0)->Ok_0;
    lemma_cold(txn_id, hot, tables, order, 0);
    let out = logged_operations(txn_id, tables, order)->Ok_0;
    assert forall|n: int| 0 <= n < hot.len() implies hot[n] == out[n] by {
        assert(hot =~= out.subrange(0, hot.len() as int));
        assert(hot[n] == out.subrange(0, hot.len() as int)[n]);
    }
    assert forall|a: int, id: u128|
        0 <= a < order.len() && #[trigger] is_hot_as(
            tables[#[trigger] order[a] as int],
            id,
        ) implies exists|base: int| #[trigger]
        stands_at(out, base, txn_id, tables[order[a] as int], id) by {
        let table = tables[order[a] as int];
        let base = choose|base: int| #[trigger] stands_at(hot, base, txn_id, table, id);
        assert(stands_at(out, base, txn_id, table, id));
    }
}

/// The log holds all of a table with hot changes: for every cold row that it
/// deletes an operation, and behind those one for every version, a delete
/// exactly where the version is one.
pub proof fn law_hot_table_is_logged(
    txn_id: i64,
    tables: Seq<TouchedTable>,
    order: Seq<usize>,
    t: int,
    id: u128,
)
    requires
        is_name_order(table_names(tables), order),
        logged_operations(txn_id, tables, order) is Ok,
        0 <= t < tables.len(),
        is_hot_as(tables[t], id),
    ensures
        exists|base: int| #[trigger]
            stands_at(
                logged_operations(txn_id, tables, order)->Ok_0,
                base,
                txn_id,
                tables[t],
                id,
            ),
{
    lemma_logged(txn_id, tables, order);
    assert(table_names(tables).len() == tables.len());
    assert(lists_position(order, t));
    let a = choose|a: int| 0 <= a < order.len() && #[trigger] order[a] == t;
    assert(is_hot_as(tables[order[a] as int], id));
}

/// The log holds every cold row that a table without hot changes deletes.
pub proof fn law_cold_table_is_logged(
    txn_id: i64,
    tables: Seq<TouchedTable>,
    order: Seq<usize>,
    t: int,
    id: u128,
)
    requires
        is_name_order(table_names(tables), order),
        logged_operations(txn_id, tables, order) is Ok,
        0 <= t < tables.len(),
        is_cold_as(tables[t], id),
    ensures
        exists|base: int| #[trigger]
            deletes_stand_at(
                logged_operations(txn_id, tables, order)->Ok_0,
                base,
                txn_id,
                id,
                tables[t].tombstones@,
            ),
{
    lemma_logged(txn_id, tables, order);
    assert(table_names(tables).len() == tables.len());
    assert(lists_position(order, t));
    let a = choose|a: int| 0 <= a < order.len() && #[trigger] order[a] == t;
    assert(is_cold_as(tables[order[a] as int], id));
}

/// Every operation of the log comes from a version or a cold delete of the
/// transaction: replay deletes no row that it did not delete.
pub proof fn law_nothing_else_is_logged(
    txn_id: i64,
    tables: Seq<TouchedTable>,
    order: Seq<usize>,
    n: int,
)
    requires
        is_name_order(table_names(tables), order),
        logged_operations(txn_id, tables, order) is Ok,
        0 <= n < logged_operations(txn_id, tables, order)->Ok_0.len(),
    ensures
        is_accounted(
            logged_operations(txn_id, tables, order)->Ok_0[n],
            txn_id,
            tables,
        ),
{
    lemma_logged(txn_id, tables, order);
}

/// A table whose identity the log cannot name.
pub open spec fn is_unnamed(table: TouchedTable) -> bool {
    if table.has_local_changes && table.own_id is Some {
        table.own_id->Some_0 is Err
    } else {
        table.has_manager && !(table.published_id is Some && table.published_id->Some_0 is Ok)
    }
}

proof fn lemma_hot_succeeds(
    txn_id: i64,
    acc: Seq<DmlOperation>,
    tables: Seq<TouchedTable>,
    order: Seq<usize>,
    i: int,
)
    requires
        0 <= i <= order.len(),
    ensures
        with_hot_operations(txn_id, acc, tables, order, i) is Ok <==> forall|a: int|
            i <= a < order.len() ==> {
                let table = tables[#[trigger] order[a] as int];
                table.has_local_changes && table.own_id is Some ==> table.own_id->Some_0 is Ok
            },
    decreases order.len() - i,
{
    if i < order.len() {
        let table = tables[order[i] as int];
        if table.has_local_changes && table.own_id is Some {
            if let Ok(id) = table.own_id->Some_0 {
                lemma_hot_succeeds(
                    txn_id,
                    acc + hot_operations(txn_id, table, id),
                    tables,
                    order,
                    i + 1,
                );
            }
        } else {
            lemma_hot_succeeds(txn_id, acc, tables, order, i + 1);
        }
    }
}

proof fn lemma_cold_succeeds(
    txn_id: i64,
    acc: Seq<DmlOperation>,
    tables: Seq<TouchedTable>,
    order: Seq<usize>,
    i: int,
)
    requires
        0 <= i <= order.len(),
    ensures
        with_cold_operations(txn_id, acc, tables, order, i) is Ok <==> forall|a: int|
            i <= a < order.len() ==> {
                let table = tables[#[trigger] order[a] as int];
                !(table.has_local_changes && table.own_id is Some) && table.has_manager
                    ==> table.published_id is Some && table.published_id->Some_0 is Ok
            },
    decreases order.len() - i,
{
    if i < order.len() {
        let table = tables[order[i] as int];
        if !(table.has_local_changes && table.own_id is Some) && table.has_manager {
            if let Some(Ok(id)) = table.published_id {
                lemma_cold_succeeds(
                    txn_id,
                    acc + delete_operations(txn_id, id, table.tombstones@),
                    tables,
                    order,
                    i + 1,
                );
            }
        } else {
            lemma_cold_succeeds(txn_id, acc, tables, order, i + 1);
        }
    }
}

/// A transaction can be logged exactly where the log can name every table that
/// it has something to say of.
pub proof fn law_log_needs_identities(txn_id: i64, tables: Seq<TouchedTable>, order: Seq<usize>)
    requires
        is_name_order(table_names(tables), order),
    ensures
        logged_operations(txn_id, tables, order) is Err <==> exists|t: int|
            0 <= t < tables.len() && is_unnamed(#[trigger] tables[t]),
{
    lemma_hot_succeeds(txn_id, Seq::empty(), tables, order, 0);
    assert(table_names(tables).len() == tables.len());
    if with_hot_operations(txn_id, Seq::empty(), tables, order, 0) is Ok {
        lemma_cold_succeeds(
            txn_id,
            with_hot_operations(txn_id, Seq::empty(), tables, order, 0)->Ok_0,
            tables,
            order,
            0,
        );
    }
    assert forall|a: int| 0 <= a < order.len() implies (#[trigger] order[a]) < tables.len() by {
        assert(order[a] < table_names(tables).len());
    }
    if exists|t: int| 0 <= t < tables.len() && is_unnamed(#[trigger] tables[t]) {
        let t = choose|t: int| 0 <= t < tables.len() && is_unnamed(#[trigger] tables[t]);
        assert(lists_position(order, t));
        let a = choose|a: int| 0 <= a < order.len() && #[trigger] order[a] == t;
        assert(tables[order[a] as int] == tables[t]);
    }
    if logged_operations(txn_id, tables, order) is Err {
        if with_hot_operations(txn_id, Seq::empty(), tables, order, 0) is Err {
            let a = choose|a: int|
                0 <= a < order.len() && !{
                    let table = tables[#[trigger] order[a] as int];
                    table.has_local_changes && table.own_id is Some ==> table.own_id->Some_0 is Ok
                };
            assert(is_unnamed(tables[order[a] as int]));
        } else {
            let a = choose|a: int|
                0 <= a < order.len() && !{
                    let table = tables[#[trigger] order[a] as int];
                    !(table.has_local_changes && table.own_id is Some) && table.has_manager
                        ==> table.published_id is Some && table.published_id->Some_0 is Ok
                };
            assert(is_unnamed(tables[order[a] as int]));
        }
    }
}

/// Positions that a commit works through: each is of a table of the kind, each
/// table of the kind has one, and none stands twice.
pub open spec fn are_those(
    positions: Seq<usize>,
    n: int,
    wanted: spec_fn(int) -> bool,
) -> bool {
    &&& forall|p: usize| #[trigger] positions.contains(p) <==> (p < n && wanted(p as int))
    &&& positions.no_duplicates()
}

proof fn lemma_push_member(s: Seq<usize>, x: usize)
    ensures
        forall|p: usize| #[trigger] s.push(x).contains(p) <==> s.contains(p) || p == x,
        s.no_duplicates() && !s.contains(x) ==> s.push(x).no_duplicates(),
{
    let t = s.push(x);
    assert forall|p: usize| #[trigger] t.contains(p) <==> s.contains(p) || p == x by {
        if s.contains(p) {
            let k = choose|k: int| 0 <= k < s.len() && s[k] == p;
            assert(t[k] == p);
        }
        if p == x {
            assert(t[s.len() as int] == p);
        }
        if t.contains(p) {
            let k = choose|k: int| 0 <= k < t.len() && t[k] == p;
            if k < s.len() {
                assert(s[k] == p);
            }
        }
    }
}

proof fn lemma_changed(tables: Seq<TouchedTable>, n: int)
    requires
        0 <= n <= tables.len() <= usize::MAX,
    ensures
        are_those(
            changed_positions(tables, n),
            n,
            |i: int|
                tables[i].has_local_changes || (tables[i].has_manager && (
                tables[i].tombstones@.len() > 0 || tables[i].has_index_removals)),
        ),
    decreases n,
{
    if n > 0 {
        lemma_changed(tables, n - 1);
        lemma_push_member(changed_positions(tables, n - 1), (n - 1) as usize);
    }
}

/// The tables reported as changed are those with local versions, with cold
/// deletes or with removals from cold indexes, each once.
pub proof fn law_changed_tables_are_reported(tables: Seq<TouchedTable>, t: usize)
    requires
        tables.len() <= usize::MAX,
    ensures
        changed_positions(tables, tables.len() as int).contains(t) <==> t < tables.len() && (
        tables[t as int].has_local_changes || (tables[t as int].has_manager && (
        tables[t as int].tombstones@.len() > 0 || tables[t as int].has_index_removals))),
        changed_positions(tables, tables.len() as int).no_duplicates(),
        super::dml::changes_anything(tables) <==> changed_positions(
            tables,
            tables.len() as int,
        ).len() > 0,
{
    let n = tables.len() as int;
    lemma_changed(tables, n);
    let all = changed_positions(tables, n);
    if super::dml::changes_anything(tables) {
        let i = choose|i: int|
            0 <= i < tables.len() && ((#[trigger] tables[i]).has_local_changes
                || super::dml::has_cold_changes(tables[i]));
        assert(all.contains(i as usize));
    }
    if all.len() > 0 {
        assert(all.contains(all[0]));
        assert(tables[all[0] as int] == tables[all[0] as int]);
    }
}

proof fn lemma_rollback(tables: Seq<TouchedTable>, n: int)
    requires
        0 <= n <= tables.len() <= usize::MAX,
    ensures
        are_those(rollback_positions(tables, n), n, |i: int| tables[i].has_manager),
    decreases n,
{
    if n > 0 {
        lemma_rollback(tables, n - 1);
        lemma_push_member(rollback_positions(tables, n - 1), (n - 1) as usize);
    }
}

/// A rollback takes back the pending cold state of every table that has a cold
/// owner, and of no other.
pub proof fn law_rollback_takes_back_all_cold_state(tables: Seq<TouchedTable>, t: usize)
    requires
        tables.len() <= usize::MAX,
    ensures
        rollback_positions(tables, tables.len() as int).contains(t) <==> t < tables.len()
            && tables[t as int].has_manager,
        rollback_positions(tables, tables.len() as int).no_duplicates(),
{
    lemma_rollback(tables, tables.len() as int);
}

/// Positions taken from an order, those of a kind alone.
pub open spec fn are_taken(
    positions: Seq<usize>,
    order: Seq<usize>,
    n: int,
    wanted: spec_fn(int) -> bool,
) -> bool {
    &&& forall|p: usize| #[trigger]
        positions.contains(p) <==> wanted(p as int) && order.take(n).contains(p)
    &&& forall|a: int, b: int|
        0 <= a < b < positions.len() ==> #[trigger] stands_before(
            order.take(n),
            positions[a],
            positions[b],
        )
}

/// One position stands before another in an order.
pub open spec fn stands_before(order: Seq<usize>, p: usize, q: usize) -> bool {
    exists|a: int, b: int|
        0 <= a < b < order.len() && #[trigger] order[a] == p && #[trigger] order[b] == q
}

proof fn lemma_take_step(
    positions: Seq<usize>,
    order: Seq<usize>,
    n: int,
    wanted: spec_fn(int) -> bool,
)
    requires
        0 < n <= order.len(),
        are_taken(positions, order, n - 1, wanted),
    ensures
        wanted(order[n - 1] as int) ==> are_taken(
            positions.push(order[n - 1]),
            order,
            n,
            wanted,
        ),
        !wanted(order[n - 1] as int) ==> are_taken(positions, order, n, wanted),
{
    let last = order[n - 1];
    let short = order.take(n - 1);
    let long = order.take(n);
    assert(long =~= short.push(last));
    lemma_push_member(short, last);
    lemma_push_member(positions, last);
    assert forall|p: usize, q: usize| #[trigger] stands_before(short, p, q) implies stands_before(
        long,
        p,
        q,
    ) by {
        let (a, b) = choose|a: int, b: int|
            0 <= a < b < short.len() && #[trigger] short[a] == p && #[trigger] short[b] == q;
        assert(long[a] == p && long[b] == q);
    }
    if wanted(last as int) {
        let out = positions.push(last);
        assert forall|a: int, b: int| 0 <= a < b < out.len() implies #[trigger] stands_before(
            long,
            out[a],
            out[b],
        ) by {
            if b < positions.len() {
                assert(stands_before(short, positions[a], positions[b]));
            } else {
                assert(positions.contains(positions[a]));
                assert(short.contains(out[a]));
                let k = choose|k: int| 0 <= k < short.len() && short[k] == out[a];
                assert(long[k] == out[a] && long[n - 1] == out[b]);
            }
        }
    } else {
        assert forall|a: int, b: int| 0 <= a < b < positions.len() implies #[trigger] stands_before(
            long,
            positions[a],
            positions[b],
        ) by {
            assert(stands_before(short, positions[a], positions[b]));
        }
    }
}

proof fn lemma_managed(tables: Seq<TouchedTable>, order: Seq<usize>, n: int)
    requires
        0 <= n <= order.len(),
    ensures
        are_taken(
            managed_positions(tables, order, n),
            order,
            n,
            |i: int| tables[i].has_manager,
        ),
    decreases n,
{
    if n > 0 {
        lemma_managed(tables, order, n - 1);
        lemma_take_step(
            managed_positions(tables, order, n - 1),
            order,
            n,
            |i: int| tables[i].has_manager,
        );
    }
}

proof fn lemma_fenced(tables: Seq<TouchedTable>, order: Seq<usize>, n: int)
    requires
        0 <= n <= order.len(),
    ensures
        are_taken(
            fenced_positions(tables, order, n),
            order,
            n,
            |i: int| tables[i].published_id is Some,
        ),
    decreases n,
{
    if n > 0 {
        lemma_fenced(tables, order, n - 1);
        lemma_take_step(
            fenced_positions(tables, order, n - 1),
            order,
            n,
            |i: int| tables[i].published_id is Some,
        );
    }
}

proof fn lemma_failed(
    tables: Seq<TouchedTable>,
    commits: Seq<Result<(), Error>>,
    order: Seq<usize>,
    n: int,
)
    requires
        0 <= n <= order.len(),
    ensures
        are_taken(
            failed_positions(tables, commits, order, n),
            order,
            n,
            |i: int|
                tables[i].has_local_changes && tables[i].own_id is Some && commits[i] is Err
                    && tables[i].has_manager,
        ),
    decreases n,
{
    if n > 0 {
        lemma_failed(tables, commits, order, n - 1);
        lemma_take_step(
            failed_positions(tables, commits, order, n - 1),
            order,
            n,
            |i: int|
                tables[i].has_local_changes && tables[i].own_id is Some && commits[i] is Err
                    && tables[i].has_manager,
        );
    }
}

proof fn lemma_order_lists(tables: Seq<TouchedTable>, order: Seq<usize>, t: usize)
    requires
        is_name_order(table_names(tables), order),
    ensures
        order.take(order.len() as int).contains(t) <==> t < tables.len(),
{
    assert(order.take(order.len() as int) =~= order);
    assert(table_names(tables).len() == tables.len());
    if t < tables.len() {
        assert(lists_position(order, t as int));
        let a = choose|a: int| 0 <= a < order.len() && #[trigger] order[a] == t as int;
        assert(order[a] == t);
    }
    if order.contains(t) {
        let a = choose|a: int| 0 <= a < order.len() && order[a] == t;
        assert(order[a] < table_names(tables).len());
    }
}

/// With a commit the pending cold state of every table that has a cold owner
/// becomes visible, and of no other, in the order of names.
pub proof fn law_commit_publishes_all_cold_state(
    tables: Seq<TouchedTable>,
    order: Seq<usize>,
    t: usize,
    a: int,
    b: int,
)
    requires
        is_name_order(table_names(tables), order),
    ensures
        ({
            let out = managed_positions(tables, order, order.len() as int);
            &&& out.contains(t) <==> t < tables.len() && tables[t as int].has_manager
            &&& 0 <= a < b < out.len() ==> crate::text::text_before(
                tables[out[a] as int].name@,
                tables[out[b] as int].name@,
            )
        }),
{
    let out = managed_positions(tables, order, order.len() as int);
    lemma_managed(tables, order, order.len() as int);
    lemma_order_lists(tables, order, t);
    lemma_by_name(tables, order, out, a, b);
}

proof fn lemma_by_name(
    tables: Seq<TouchedTable>,
    order: Seq<usize>,
    out: Seq<usize>,
    a: int,
    b: int,
)
    requires
        is_name_order(table_names(tables), order),
        forall|a: int, b: int|
            0 <= a < b < out.len() ==> #[trigger] stands_before(
                order.take(order.len() as int),
                out[a],
                out[b],
            ),
    ensures
        0 <= a < b < out.len() ==> crate::text::text_before(
            tables[out[a] as int].name@,
            tables[out[b] as int].name@,
        ),
{
    assert(order.take(order.len() as int) =~= order);
    if 0 <= a < b < out.len() {
        assert(stands_before(order, out[a], out[b]));
        let (x, y) = choose|x: int, y: int|
            0 <= x < y < order.len() && #[trigger] order[x] == out[a] && #[trigger] order[y]
                == out[b];
        let names = table_names(tables);
        assert(order[x] < names.len() && order[y] < names.len());
        assert(crate::text::text_before(names[order[x] as int], names[order[y] as int]));
        assert(names[order[x] as int] == tables[order[x] as int].name@);
        assert(names[order[y] as int] == tables[order[y] as int].name@);
    }
}

/// A commit takes the fence of every published table that it touched, and of no
/// other, in the order of names.
pub proof fn law_commit_fences_published_tables(
    tables: Seq<TouchedTable>,
    order: Seq<usize>,
    t: usize,
    a: int,
    b: int,
)
    requires
        is_name_order(table_names(tables), order),
    ensures
        ({
            let out = fenced_positions(tables, order, order.len() as int);
            &&& out.contains(t) <==> t < tables.len() && tables[t as int].published_id is Some
            &&& 0 <= a < b < out.len() ==> crate::text::text_before(
                tables[out[a] as int].name@,
                tables[out[b] as int].name@,
            )
        }),
{
    let out = fenced_positions(tables, order, order.len() as int);
    lemma_fenced(tables, order, order.len() as int);
    lemma_order_lists(tables, order, t);
    lemma_by_name(tables, order, out, a, b);
}

proof fn lemma_first_failure(
    tables: Seq<TouchedTable>,
    commits: Seq<Result<(), Error>>,
    order: Seq<usize>,
    i: int,
)
    requires
        0 <= i <= order.len(),
    ensures
        match first_failure(tables, commits, order, i) {
            None => forall|a: int|
                i <= a < order.len() ==> {
                    let at = #[trigger] order[a] as int;
                    !(tables[at].has_local_changes && tables[at].own_id is Some && commits[at] is Err)
                },
            Some(e) => exists|a: int|
                {
                    let at = #[trigger] order[a] as int;
                    &&& i <= a < order.len()
                    &&& tables[at].has_local_changes && tables[at].own_id is Some
                    &&& commits[at] is Err && commits[at]->Err_0@ == e
                    &&& forall|b: int|
                        i <= b < a ==> {
                            let other = #[trigger] order[b] as int;
                            !(tables[other].has_local_changes && tables[other].own_id is Some
                                && commits[other] is Err)
                        }
                },
        },
    decreases order.len() - i,
{
    if i < order.len() {
        let at = order[i] as int;
        if !(tables[at].has_local_changes && tables[at].own_id is Some && commits[at] is Err) {
            lemma_first_failure(tables, commits, order, i + 1);
        } else {
            assert(refusal(commits[at]) == Some(commits[at]->Err_0@));
        }
    }
}

/// Publishing rows reports a failure exactly where a table with hot changes
/// failed, and then that of the first such table by name; the cold state of
/// every failed table that has an owner is taken back, and of no other.
pub proof fn law_failed_publication_is_reported(
    tables: Seq<TouchedTable>,
    commits: Seq<Result<(), Error>>,
    order: Seq<usize>,
    t: usize,
)
    requires
        is_name_order(table_names(tables), order),
        commits.len() == tables.len(),
    ensures
        failed_positions(tables, commits, order, order.len() as int).contains(t) <==> {
            &&& t < tables.len()
            &&& tables[t as int].has_local_changes
            &&& tables[t as int].own_id is Some
            &&& commits[t as int] is Err
            &&& tables[t as int].has_manager
        },
        t < tables.len() && tables[t as int].has_local_changes && tables[t as int].own_id is Some
            && commits[t as int] is Err ==> first_failure(tables, commits, order, 0) is Some,
        first_failure(tables, commits, order, 0) matches Some(e) ==> exists|x: int|
            {
                &&& 0 <= x < tables.len()
                &&& (#[trigger] tables[x]).has_local_changes && tables[x].own_id is Some
                &&& commits[x] is Err && commits[x]->Err_0@ == e
                &&& t < tables.len() && tables[t as int].has_local_changes
                    && tables[t as int].own_id is Some && commits[t as int] is Err && t != x
                    ==> crate::text::text_before(tables[x].name@, tables[t as int].name@)
            },
{
    let n = order.len() as int;
    lemma_failed(tables, commits, order, n);
    lemma_order_lists(tables, order, t);
    lemma_first_failure(tables, commits, order, 0);
    let names = table_names(tables);
    assert(names.len() == tables.len());
    if t < tables.len() {
        assert(lists_position(order, t as int));
        let b = choose|b: int| 0 <= b < order.len() && #[trigger] order[b] == t as int;
        assert(order[b] == t);
        if let Some(e) = first_failure(tables, commits, order, 0) {
            let a = choose|a: int|
                {
                    let at = #[trigger] order[a] as int;
                    &&& 0 <= a < order.len()
                    &&& tables[at].has_local_changes && tables[at].own_id is Some
                    &&& commits[at] is Err && commits[at]->Err_0@ == e
                    &&& forall|b: int|
                        0 <= b < a ==> {
                            let other = #[trigger] order[b] as int;
                            !(tables[other].has_local_changes && tables[other].own_id is Some
                                && commits[other] is Err)
                        }
                };
            let x = order[a] as int;
            assert(order[a] < names.len());
            assert(names[x] == tables[x].name@);
            assert(names[t as int] == tables[t as int].name@);
            if a < b {
                assert(crate::text::text_before(names[order[a] as int], names[order[b] as int]));
            }
            assert(tables[x].has_local_changes);
        }
    } else if let Some(e) = first_failure(tables, commits, order, 0) {
        let a = choose|a: int|
            {
                let at = #[trigger] order[a] as int;
                &&& 0 <= a < order.len()
                &&& tables[at].has_local_changes && tables[at].own_id is Some
                &&& commits[at] is Err && commits[at]->Err_0@ == e
                &&& forall|b: int|
                    0 <= b < a ==> {
                        let other = #[trigger] order[b] as int;
                        !(tables[other].has_local_changes && tables[other].own_id is Some
                            && commits[other] is Err)
                    }
            };
        assert(order[a] < names.len());
        assert(tables[order[a] as int].has_local_changes);
    }
}

} // verus!
