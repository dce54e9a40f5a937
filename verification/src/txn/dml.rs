//! What a committing transaction writes to the log and publishes.
use crate::error::outcome;
use crate::error::refusal;
use crate::error::Error;
use crate::error::ErrorView;
use crate::txn::order::all_distinct;
use crate::txn::order::is_name_order;
use crate::txn::order::order_by_name;
use crate::txn::order::string_views;
use vstd::prelude::*;
use vstd::string::StringExecFns;

verus! {

/// One local version of a row.
#[derive(Debug, Clone, Copy, PartialEq, Eq, Structural)]
pub struct PendingVersion {
    pub row_id: i64,
    /// Handle of the row's values.
    pub data: u64,
    pub is_deleted: bool,
    pub txn_id: i64,
    pub create_time: i64,
}

/// One row operation of the log.
#[derive(Debug, Clone, Copy, PartialEq, Eq, Structural)]
pub struct DmlOperation {
    pub table_id: u128,
    pub row_id: i64,
    pub is_delete: bool,
    pub txn_id: i64,
    pub deleted_at_txn_id: i64,
    /// Handle of the row's values; none for a deleted cold row.
    pub data: Option<u64>,
    pub create_time: i64,
}

/// A cold row that a transaction deletes.
#[derive(Debug, Clone, Copy, PartialEq, Eq, Structural)]
pub struct ColdDelete {
    pub row_id: i64,
    /// When the delete was noted.
    pub at: i64,
}

/// A table that a transaction touched.
#[derive(Debug)]
pub struct TouchedTable {
    pub name: String,
    pub has_local_changes: bool,
    /// Catalog identity of the store the transaction sees, where there is
    /// one, or why it has none.
    pub own_id: Option<Result<u128, String>>,
    /// The same of the published store.
    pub published_id: Option<Result<u128, String>>,
    pub has_manager: bool,
    /// Cold rows that the transaction deletes.
    pub tombstones: Vec<ColdDelete>,
    pub has_index_removals: bool,
    pub versions: Vec<PendingVersion>,
}

pub open spec fn table_names(tables: Seq<TouchedTable>) -> Seq<Seq<char>> {
    tables.map_values(|t: TouchedTable| t.name@)
}

/// Whether a table has hot rows to be logged.
pub open spec fn is_hot(table: TouchedTable) -> bool {
    table.has_local_changes && table.own_id is Some
}

/// Whether a table has cold changes.
pub open spec fn has_cold_changes(table: TouchedTable) -> bool {
    table.has_manager && (table.tombstones@.len() > 0 || table.has_index_removals)
}

pub open spec fn delete_operation(txn_id: i64, table_id: u128, cold: ColdDelete) -> DmlOperation {
    DmlOperation {
        table_id,
        row_id: cold.row_id,
        is_delete: true,
        txn_id,
        deleted_at_txn_id: txn_id,
        data: None,
        create_time: cold.at,
    }
}

pub open spec fn version_operation(table_id: u128, version: PendingVersion) -> DmlOperation {
    DmlOperation {
        table_id,
        row_id: version.row_id,
        is_delete: version.is_deleted,
        txn_id: version.txn_id,
        deleted_at_txn_id: if version.is_deleted {
            version.txn_id
        } else {
            0
        },
        data: Some(version.data),
        create_time: version.create_time,
    }
}

pub open spec fn delete_operations(
    txn_id: i64,
    table_id: u128,
    rows: Seq<ColdDelete>,
) -> Seq<DmlOperation> {
    rows.map_values(|cold: ColdDelete| delete_operation(txn_id, table_id, cold))
}

pub open spec fn version_operations(
    table_id: u128,
    versions: Seq<PendingVersion>,
) -> Seq<DmlOperation> {
    versions.map_values(|v: PendingVersion| version_operation(table_id, v))
}

pub open spec fn identity_error(name: Seq<char>, text: Seq<char>) -> ErrorView {
    ErrorView::Internal(
        "table '"@ + name + "' has invalid catalog identity for WAL: "@ + text,
    )
}

/// Operations of one hot table: deletes of cold rows come before its own
/// versions, so that a rewritten row is deleted before it is inserted.
pub open spec fn hot_operations(txn_id: i64, table: TouchedTable, id: u128) -> Seq<
    DmlOperation,
> {
    (if table.has_manager {
        delete_operations(txn_id, id, table.tombstones@)
    } else {
        Seq::empty()
    }) + version_operations(id, table.versions@)
}

/// Operations of all hot tables, in the order of their names.
pub open spec fn with_hot_operations(
    txn_id: i64,
    operations: Seq<DmlOperation>,
    tables: Seq<TouchedTable>,
    order: Seq<usize>,
    i: int,
) -> Result<Seq<DmlOperation>, ErrorView>
    decreases order.len() - i,
{
    if i < 0 || i >= order.len() {
        Ok(operations)
    } else {
        let table = tables[order[i] as int];
        if !is_hot(table) {
            with_hot_operations(txn_id, operations, tables, order, i + 1)
        } else {
            match table.own_id->Some_0 {
                Err(text) => Err(identity_error(table.name@, text@)),
                Ok(id) => with_hot_operations(
                    txn_id,
                    operations + hot_operations(txn_id, table, id),
                    tables,
                    order,
                    i + 1,
                ),
            }
        }
    }
}

/// Operations of the tables that have cold changes alone.
pub open spec fn with_cold_operations(
    txn_id: i64,
    operations: Seq<DmlOperation>,
    tables: Seq<TouchedTable>,
    order: Seq<usize>,
    i: int,
) -> Result<Seq<DmlOperation>, ErrorView>
    decreases order.len() - i,
{
    if i < 0 || i >= order.len() {
        Ok(operations)
    } else {
        let table = tables[order[i] as int];
        if is_hot(table) || !table.has_manager {
            with_cold_operations(txn_id, operations, tables, order, i + 1)
        } else {
            match table.published_id {
                None => Err(ErrorView::TableNotFound(table.name@)),
                Some(Err(text)) => Err(identity_error(table.name@, text@)),
                Some(Ok(id)) => with_cold_operations(
                    txn_id,
                    operations + delete_operations(txn_id, id, table.tombstones@),
                    tables,
                    order,
                    i + 1,
                ),
            }
        }
    }
}

/// Everything a transaction writes to the log, in order.
pub open spec fn logged_operations(
    txn_id: i64,
    tables: Seq<TouchedTable>,
    order: Seq<usize>,
) -> Result<Seq<DmlOperation>, ErrorView> {
    match with_hot_operations(txn_id, Seq::empty(), tables, order, 0) {
        Err(e) => Err(e),
        Ok(hot) => with_cold_operations(txn_id, hot, tables, order, 0),
    }
}

fn push_deletes(
    out: &mut Vec<DmlOperation>,
    txn_id: i64,
    table_id: u128,
    rows: &Vec<ColdDelete>,
)
    ensures
        final(out)@ == old(out)@ + delete_operations(txn_id, table_id, rows@),
{
    let mut i: usize = 0;
    while i < rows.len()
        invariant
            0 <= i <= rows@.len(),
            out@ =~= old(out)@ + delete_operations(txn_id, table_id, rows@).take(i as int),
        decreases rows@.len() - i,
    {
        out.push(
            DmlOperation {
                table_id,
                row_id: rows[i].row_id,
                is_delete: true,
                txn_id,
                deleted_at_txn_id: txn_id,
                data: None,
                create_time: rows[i].at,
            },
        );
        i = i + 1;
    }
    assert(delete_operations(txn_id, table_id, rows@).take(i as int) =~= delete_operations(
        txn_id,
        table_id,
        rows@,
    ));
}

/// Turns a table's local versions into log operations.
pub fn collect_table_wal_operations(
    out: &mut Vec<DmlOperation>,
    table_id: u128,
    versions: &Vec<PendingVersion>,
)
    ensures
        final(out)@ == old(out)@ + version_operations(table_id, versions@),
{
    let mut i: usize = 0;
    while i < versions.len()
        invariant
            0 <= i <= versions@.len(),
            out@ =~= old(out)@ + version_operations(table_id, versions@).take(i as int),
        decreases versions@.len() - i,
    {
        let version: PendingVersion = versions[i];
        out.push(
            DmlOperation {
                table_id,
                row_id: version.row_id,
                is_delete: version.is_deleted,
                txn_id: version.txn_id,
                deleted_at_txn_id: if version.is_deleted {
                    version.txn_id
                } else {
                    0
                },
                data: Some(version.data),
                create_time: version.create_time,
            },
        );
        i = i + 1;
    }
    assert(version_operations(table_id, versions@).take(i as int) =~= version_operations(
        table_id,
        versions@,
    ));
}

fn identity_refused(name: &str, text: &str) -> (e: Error)
    ensures
        e@ == identity_error(name@, text@),
{
    Error::Internal {
        message: String::from_str("table '").concat(name).concat(
            "' has invalid catalog identity for WAL: ",
        ).concat(text),
    }
}

/// The names of touched tables.
pub fn names_of_tables(tables: &Vec<TouchedTable>) -> (names: Vec<String>)
    ensures
        string_views(names@) == table_names(tables@),
{
    let mut names: Vec<String> = Vec::new();
    let mut i: usize = 0;
    while i < tables.len()
        invariant
            0 <= i <= tables@.len(),
            names@.len() == i,
            forall|k: int| 0 <= k < i ==> (#[trigger] names@[k])@ == tables@[k].name@,
        decreases tables@.len() - i,
    {
        names.push(tables[i].name.clone());
        i = i + 1;
    }
    assert(string_views(names@) =~= table_names(tables@));
    names
}

/// Everything a transaction writes to the log, in order.
pub fn record_transaction_dml(txn_id: i64, tables: &Vec<TouchedTable>) -> (r: Result<
    Vec<DmlOperation>,
    Error,
>)
    requires
        all_distinct(table_names(tables@)),
    ensures
        exists|order: Seq<usize>|
            #[trigger] is_name_order(table_names(tables@), order) && outcome(r)
                == logged_operations(txn_id, tables@, order),
{
    let names: Vec<String> = names_of_tables(tables);
    let order: Vec<usize> = order_by_name(&names);
    let ghost hot = with_hot_operations(txn_id, Seq::empty(), tables@, order@, 0);
    let mut out: Vec<DmlOperation> = Vec::new();
    let mut i: usize = 0;
    while i < order.len()
        invariant
            0 <= i <= order@.len(),
            is_name_order(table_names(tables@), order@),
            hot == with_hot_operations(txn_id, Seq::empty(), tables@, order@, 0),
            hot == with_hot_operations(txn_id, out@, tables@, order@, i as int),
        decreases order@.len() - i,
    {
        assert(order@[i as int] < table_names(tables@).len());
        let table: &TouchedTable = &tables[order[i]];
        if table.has_local_changes {
            match &table.own_id {
                Some(Err(text)) => {
                    return Err(identity_refused(table.name.as_str(), text.as_str()));
                },
                Some(Ok(id)) => {
                    let ghost before = out@;
                    if table.has_manager {
                        push_deletes(&mut out, txn_id, *id, &table.tombstones);
                    } else {
                        assert(before + Seq::<DmlOperation>::empty() =~= before);
                    }
                    collect_table_wal_operations(&mut out, *id, &table.versions);
                    assert(out@ =~= before + hot_operations(txn_id, *table, *id));
                },
                None => {},
            }
        }
        i = i + 1;
    }
    let ghost cold = with_cold_operations(txn_id, out@, tables@, order@, 0);
    let mut k: usize = 0;
    while k < order.len()
        invariant
            0 <= k <= order@.len(),
            is_name_order(table_names(tables@), order@),
            cold == logged_operations(txn_id, tables@, order@),
            cold == with_cold_operations(txn_id, out@, tables@, order@, k as int),
        decreases order@.len() - k,
    {
        assert(order@[k as int] < table_names(tables@).len());
        let table: &TouchedTable = &tables[order[k]];
        let hot_table: bool = table.has_local_changes && table.own_id.is_some();
        if !hot_table && table.has_manager {
            match &table.published_id {
                None => {
                    return Err(Error::TableNotFound(table.name.clone()));
                },
                Some(Err(text)) => {
                    return Err(identity_refused(table.name.as_str(), text.as_str()));
                },
                Some(Ok(id)) => {
                    push_deletes(&mut out, txn_id, *id, &table.tombstones);
                },
            }
        }
        k = k + 1;
    }
    Ok(out)
}

/// Whether a transaction changed anything.
pub open spec fn changes_anything(tables: Seq<TouchedTable>) -> bool {
    exists|i: int|
        0 <= i < tables.len() && ((#[trigger] tables[i]).has_local_changes || has_cold_changes(
            tables[i],
        ))
}

/// Whether a transaction changed anything. A table it never touched cannot
/// hold a change of it.
pub fn has_pending_dml_changes(tables: &Vec<TouchedTable>) -> (r: bool)
    ensures
        r == changes_anything(tables@),
{
    let mut i: usize = 0;
    while i < tables.len()
        invariant
            0 <= i <= tables@.len(),
            forall|k: int| 0 <= k < i ==> !(#[trigger] tables@[k]).has_local_changes,
        decreases tables@.len() - i,
    {
        if tables[i].has_local_changes {
            return true;
        }
        i = i + 1;
    }
    let mut k: usize = 0;
    while k < tables.len()
        invariant
            0 <= k <= tables@.len(),
            forall|m: int|
                0 <= m < tables@.len() ==> !(#[trigger] tables@[m]).has_local_changes,
            forall|m: int| 0 <= m < k ==> !has_cold_changes(#[trigger] tables@[m]),
        decreases tables@.len() - k,
    {
        if tables[k].has_manager && (tables[k].tombstones.len() > 0
            || tables[k].has_index_removals) {
            assert(has_cold_changes(tables@[k as int]));
            return true;
        }
        k = k + 1;
    }
    false
}

/// Positions below `n` of the tables with changes, in order.
pub open spec fn changed_positions(tables: Seq<TouchedTable>, n: int) -> Seq<usize>
    decreases n,
{
    if n <= 0 {
        Seq::empty()
    } else if tables[n - 1].has_local_changes || has_cold_changes(tables[n - 1]) {
        changed_positions(tables, n - 1).push((n - 1) as usize)
    } else {
        changed_positions(tables, n - 1)
    }
}

/// Positions of the touched tables with hot or cold changes.
pub fn get_tables_with_pending_changes(tables: &Vec<TouchedTable>) -> (out: Vec<usize>)
    ensures
        out@ == changed_positions(tables@, tables@.len() as int),
{
    let mut out: Vec<usize> = Vec::new();
    let mut i: usize = 0;
    while i < tables.len()
        invariant
            0 <= i <= tables@.len(),
            out@ == changed_positions(tables@, i as int),
        decreases tables@.len() - i,
    {
        let has_cold: bool = tables[i].has_manager && (tables[i].tombstones.len() > 0
            || tables[i].has_index_removals);
        if tables[i].has_local_changes || has_cold {
            out.push(i);
        }
        i = i + 1;
    }
    out
}

/// Whether rows have to be checked against cold segments again: the seal
/// generation moved since it was noted, or it never was and there are
/// segments.
pub fn needs_cold_recheck(recorded: Option<u64>, current: u64, has_segments: bool) -> (r: bool)
    ensures
        r == match recorded {
            Some(generation) => generation != current,
            None => has_segments,
        },
{
    match recorded {
        Some(generation) => generation != current,
        None => has_segments,
    }
}

/// How publishing the rows of a transaction ended.
#[derive(Debug)]
pub struct DmlPublication {
    /// The first failure.
    pub error: Option<Error>,
    /// Positions of the tables whose pending cold state is taken back.
    pub rolled_back: Vec<usize>,
}

pub open spec fn failed(table: TouchedTable, commit: Result<(), Error>) -> bool {
    is_hot(table) && commit is Err
}

/// The first failure, in the order of names.
pub open spec fn first_failure(
    tables: Seq<TouchedTable>,
    commits: Seq<Result<(), Error>>,
    order: Seq<usize>,
    i: int,
) -> Option<ErrorView>
    decreases order.len() - i,
{
    if i < 0 || i >= order.len() {
        None
    } else {
        let at = order[i] as int;
        if failed(tables[at], commits[at]) {
            refusal(commits[at])
        } else {
            first_failure(tables, commits, order, i + 1)
        }
    }
}

/// Positions of the failed tables with a cold owner, in the order of names.
pub open spec fn failed_positions(
    tables: Seq<TouchedTable>,
    commits: Seq<Result<(), Error>>,
    order: Seq<usize>,
    n: int,
) -> Seq<usize>
    decreases n,
{
    if n <= 0 {
        Seq::empty()
    } else {
        let at = order[n - 1] as int;
        let before = failed_positions(tables, commits, order, n - 1);
        if failed(tables[at], commits[at]) && tables[at].has_manager {
            before.push(order[n - 1])
        } else {
            before
        }
    }
}

/// Judges how the rows of a transaction were published, one answer per
/// touched table. Every table is tried; the first failure is reported.
pub fn publish_transaction_dml(tables: &Vec<TouchedTable>, commits: &Vec<Result<(), Error>>) -> (r:
    DmlPublication)
    requires
        all_distinct(table_names(tables@)),
        commits@.len() == tables@.len(),
    ensures
        exists|order: Seq<usize>|
            {
                &&& #[trigger] is_name_order(table_names(tables@), order)
                &&& (match r.error {
                    Some(e) => Some(e@),
                    None => None,
                }) == first_failure(tables@, commits@, order, 0)
                &&& r.rolled_back@ == failed_positions(
                    tables@,
                    commits@,
                    order,
                    order.len() as int,
                )
            },
{
    let names: Vec<String> = names_of_tables(tables);
    let order: Vec<usize> = order_by_name(&names);
    let ghost wanted = first_failure(tables@, commits@, order@, 0);
    let mut error: Option<Error> = None;
    let mut rolled_back: Vec<usize> = Vec::new();
    let mut i: usize = 0;
    while i < order.len()
        invariant
            0 <= i <= order@.len(),
            commits@.len() == tables@.len(),
            is_name_order(table_names(tables@), order@),
            wanted == first_failure(tables@, commits@, order@, 0),
            match error {
                Some(e) => wanted == Some(e@),
                None => wanted == first_failure(tables@, commits@, order@, i as int),
            },
            rolled_back@ == failed_positions(tables@, commits@, order@, i as int),
        decreases order@.len() - i,
    {
        let at: usize = order[i];
        assert(at < table_names(tables@).len());
        let hot_table: bool = tables[at].has_local_changes && tables[at].own_id.is_some();
        if hot_table {
            if let Err(failure) = &commits[at] {
                if error.is_none() {
                    error = Some(failure.duplicate());
                }
                if tables[at].has_manager {
                    rolled_back.push(at);
                }
            }
        }
        i = i + 1;
    }
    DmlPublication { error, rolled_back }
}

/// Positions of the tables with a cold owner, in the order of names.
pub open spec fn managed_positions(tables: Seq<TouchedTable>, order: Seq<usize>, n: int) -> Seq<
    usize,
>
    decreases n,
{
    if n <= 0 {
        Seq::empty()
    } else if tables[order[n - 1] as int].has_manager {
        managed_positions(tables, order, n - 1).push(order[n - 1])
    } else {
        managed_positions(tables, order, n - 1)
    }
}

/// Tables whose pending cold state becomes visible with the commit, in the
/// order of their names.
pub fn publish_committed_transaction_storage(tables: &Vec<TouchedTable>) -> (out: Vec<usize>)
    requires
        all_distinct(table_names(tables@)),
    ensures
        exists|order: Seq<usize>|
            #[trigger] is_name_order(table_names(tables@), order) && out@ == managed_positions(
                tables@,
                order,
                order.len() as int,
            ),
{
    let names: Vec<String> = names_of_tables(tables);
    let order: Vec<usize> = order_by_name(&names);
    let mut out: Vec<usize> = Vec::new();
    let mut i: usize = 0;
    while i < order.len()
        invariant
            0 <= i <= order@.len(),
            is_name_order(table_names(tables@), order@),
            out@ == managed_positions(tables@, order@, i as int),
        decreases order@.len() - i,
    {
        let at: usize = order[i];
        assert(at < table_names(tables@).len());
        if tables[at].has_manager {
            out.push(at);
        }
        i = i + 1;
    }
    out
}

/// Touched tables with a cold owner, below `n`.
pub open spec fn rollback_positions(tables: Seq<TouchedTable>, n: int) -> Seq<usize>
    decreases n,
{
    if n <= 0 {
        Seq::empty()
    } else if tables[n - 1].has_manager {
        rollback_positions(tables, n - 1).push((n - 1) as usize)
    } else {
        rollback_positions(tables, n - 1)
    }
}

/// Tables whose pending cold state a rollback takes back.
pub fn rollback_all_tables(tables: &Vec<TouchedTable>) -> (out: Vec<usize>)
    ensures
        out@ == rollback_positions(tables@, tables@.len() as int),
{
    let mut out: Vec<usize> = Vec::new();
    let mut i: usize = 0;
    while i < tables.len()
        invariant
            0 <= i <= tables@.len(),
            out@ == rollback_positions(tables@, i as int),
        decreases tables@.len() - i,
    {
        if tables[i].has_manager {
            out.push(i);
        }
        i = i + 1;
    }
    out
}

/// Published tables in the order of names.
pub open spec fn fenced_positions(tables: Seq<TouchedTable>, order: Seq<usize>, n: int) -> Seq<
    usize,
>
    decreases n,
{
    if n <= 0 {
        Seq::empty()
    } else if tables[order[n - 1] as int].published_id is Some {
        fenced_positions(tables, order, n - 1).push(order[n - 1])
    } else {
        fenced_positions(tables, order, n - 1)
    }
}

/// Tables whose membership fences a commit takes, in the order it takes
/// them. Two commits that touch the same tables take them the same way.
pub fn lock_commit_membership_fences(tables: &Vec<TouchedTable>) -> (out: Vec<usize>)
    requires
        all_distinct(table_names(tables@)),
    ensures
        exists|order: Seq<usize>|
            #[trigger] is_name_order(table_names(tables@), order) && out@ == fenced_positions(
                tables@,
                order,
                order.len() as int,
            ),
{
    let names: Vec<String> = names_of_tables(tables);
    let order: Vec<usize> = order_by_name(&names);
    let mut out: Vec<usize> = Vec::new();
    let mut i: usize = 0;
    while i < order.len()
        invariant
            0 <= i <= order@.len(),
            is_name_order(table_names(tables@), order@),
            out@ == fenced_positions(tables@, order@, i as int),
        decreases order@.len() - i,
    {
        let at: usize = order[i];
        assert(at < table_names(tables@).len());
        if tables[at].published_id.is_some() {
            out.push(at);
        }
        i = i + 1;
    }
    out
}

/// How a commit is noted in the log.
#[derive(Debug, Clone, Copy, PartialEq, Eq, Structural)]
pub enum CommitRecord {
    /// Nothing is written; the commit has no log position.
    Skip,
    /// The marker carries the catalog mutation.
    WithCatalog,
    Plain,
}

/// How a commit is noted in the log. Replay writes nothing.
pub fn record_commit(loading: bool, log_enabled: bool, catalog_prepared: bool) -> (r: CommitRecord)
    ensures
        r == if loading || !log_enabled {
            CommitRecord::Skip
        } else if catalog_prepared {
            CommitRecord::WithCatalog
        } else {
            CommitRecord::Plain
        },
{
    if loading || !log_enabled {
        CommitRecord::Skip
    } else if catalog_prepared {
        CommitRecord::WithCatalog
    } else {
        CommitRecord::Plain
    }
}

/// Whether a rollback is noted in the log.
pub fn record_rollback(loading: bool, log_enabled: bool) -> (r: bool)
    ensures
        r == (!loading && log_enabled),
{
    !loading && log_enabled
}

/// Two lists of the same tables are locked in the same order of names.
pub proof fn law_fence_order_agrees(
    a: Seq<TouchedTable>,
    b: Seq<TouchedTable>,
    order_a: Seq<usize>,
    order_b: Seq<usize>,
    i: int,
    j: int,
    p: int,
    q: int,
)
    requires
        is_name_order(table_names(a), order_a),
        is_name_order(table_names(b), order_b),
        0 <= i < order_a.len(),
        0 <= j < order_a.len(),
        0 <= p < order_b.len(),
        0 <= q < order_b.len(),
        a[order_a[i] as int].name@ == b[order_b[p] as int].name@,
        a[order_a[j] as int].name@ == b[order_b[q] as int].name@,
        i < j,
    ensures
        p < q,
{
    let na = table_names(a);
    let nb = table_names(b);
    assert(na[order_a[i] as int] == a[order_a[i] as int].name@);
    assert(na[order_a[j] as int] == a[order_a[j] as int].name@);
    assert(nb[order_b[p] as int] == b[order_b[p] as int].name@);
    assert(nb[order_b[q] as int] == b[order_b[q] as int].name@);
    crate::text::lemma_text_before_total(na[order_a[i] as int], na[order_a[j] as int]);
    if q < p {
        assert(crate::text::text_before(nb[order_b[q] as int], nb[order_b[p] as int]));
    }
    if p == q {
        assert(crate::text::text_before(na[order_a[i] as int], na[order_a[j] as int]));
    }
}

} // verus!
