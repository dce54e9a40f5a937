//! Checks that a transaction's catalog changes can all be published.
//!
//! They run before the commit marker is written. Nothing after it may fail
//! for an ordinary reason.
use crate::ddl::request::creates;
use crate::ddl::request::drops;
use crate::ddl::request::has_index;
use crate::ddl::request::is_created;
use crate::ddl::request::is_dropped;
use crate::ddl::request::CatalogState;
use crate::ddl::request::CreatedTable;
use crate::ddl::request::DdlRequest;
use crate::ddl::request::DroppedTable;
use crate::ddl::request::PendingIndexDrop;
use crate::ddl::request::PendingIndexRename;
use crate::ddl::request::PendingSchemaChange;
use crate::ddl::request::PendingTable;
use crate::ddl::request::PendingTableRename;
use crate::ddl::request::SchemaPhysicalTransition;
use crate::ddl::request::Store;
use crate::error::first_refusal;
use crate::error::refusal;
use crate::error::Error;
use crate::error::ErrorView;
use crate::model::Model;
use crate::names::NameMap;
use crate::schema::column_position;
use crate::schema::judged;
use crate::schema::validate_schema;
use crate::schema::IndexInfo;
use crate::schema::Schema;
use crate::schema::SchemaView;
use crate::text::eq_ignore_ascii_case;
use crate::text::is_text_before;
use crate::text::lemma_text_before_total;
use crate::text::lemma_text_before_transitive;
use crate::text::lowercase_text;
use crate::text::same_ignoring_ascii_case;
use crate::text::same_text;
use crate::text::signed_decimal;
use crate::text::signed_decimal_digits;
use crate::text::text_before;
use crate::text::to_lowercase;
use crate::view::ViewDefinition;
use vstd::prelude::*;
use vstd::string::StringExecFns;

verus! {

/// Whether a request touches tables or indexes at all.
pub open spec fn has_physical_ddl(request: DdlRequest) -> bool {
    ||| request.created_tables@.len() > 0
    ||| request.dropped_tables@.len() > 0
    ||| request.indexes@.len() > 0
    ||| request.index_drops@.len() > 0
    ||| request.index_renames@.len() > 0
    ||| request.table_renames@.len() > 0
    ||| request.schema_changes@.len() > 0
}

/// Physical changes need a typed catalog mutation beside them.
pub open spec fn authority_refusal(request: DdlRequest) -> Option<ErrorView> {
    if has_physical_ddl(request) && !request.has_catalog_mutation {
        Some(
            ErrorView::NotSupported(
                "physical DDL requires one authoritative typed catalog mutation"@,
            ),
        )
    } else {
        None
    }
}

pub fn check_authority(request: &DdlRequest) -> (r: Result<(), Error>)
    ensures
        refusal(r) == authority_refusal(*request),
{
    let physical: bool = request.created_tables.len() > 0 || request.dropped_tables.len() > 0
        || request.indexes.len() > 0 || request.index_drops.len() > 0
        || request.index_renames.len() > 0 || request.table_renames.len() > 0
        || request.schema_changes.len() > 0;
    if physical && !request.has_catalog_mutation {
        return Err(
            Error::NotSupported(
                String::from_str("physical DDL requires one authoritative typed catalog mutation"),
            ),
        );
    }
    Ok(())
}

/// Whether a created table still has its reservation and a free name.
pub open spec fn reservation_refusal(
    state: CatalogState,
    txn_id: i64,
    table: CreatedTable,
) -> Option<ErrorView> {
    let lower = lowercase_text(table.name@);
    let txn = signed_decimal_digits(txn_id as int);
    if !state.pending@.dom().contains(lower) {
        Some(
            ErrorView::Internal(
                "transaction "@ + txn + " lost pending table reservation '"@ + table.name@ + "'"@,
            ),
        )
    } else {
        let pending = state.pending@[lower];
        if pending.owner_txn_id != txn_id {
            Some(
                ErrorView::Internal(
                    "pending table '"@ + table.name@ + "' belongs to transaction "@
                        + signed_decimal_digits(pending.owner_txn_id as int) + ", not "@ + txn,
                ),
            )
        } else if state.schemas@.dom().contains(lower) || state.stores@.dom().contains(lower) {
            Some(ErrorView::TableAlreadyExists(lower))
        } else if pending.schema.table_name_lower@ != lower {
            Some(
                ErrorView::InvalidArgument(
                    "pending table identity '"@ + table.name@ + "' does not match schema '"@
                        + pending.schema.table_name@ + "'"@,
                ),
            )
        } else {
            judged(pending.schema@, table.verdicts)
        }
    }
}

pub open spec fn reservation_check(state: CatalogState, request: DdlRequest) -> spec_fn(
    int,
) -> Option<ErrorView> {
    |i: int| reservation_refusal(state, request.txn_id, request.created_tables@[i])
}

fn check_reservation(state: &CatalogState, txn_id: i64, table: &CreatedTable) -> (r: Result<
    (),
    Error,
>)
    requires
        state.wf(),
    ensures
        refusal(r) == reservation_refusal(*state, txn_id, *table),
{
    let lower: String = to_lowercase(table.name.as_str());
    let pending: &PendingTable = match state.pending.get(lower.as_str()) {
        Some(pending) => pending,
        None => {
            return Err(
                Error::Internal {
                    message: String::from_str("transaction ").concat(
                        signed_decimal(txn_id).as_str(),
                    ).concat(" lost pending table reservation '").concat(
                        table.name.as_str(),
                    ).concat("'"),
                },
            );
        },
    };
    if pending.owner_txn_id != txn_id {
        return Err(
            Error::Internal {
                message: String::from_str("pending table '").concat(table.name.as_str()).concat(
                    "' belongs to transaction ",
                ).concat(signed_decimal(pending.owner_txn_id).as_str()).concat(", not ").concat(
                    signed_decimal(txn_id).as_str(),
                ),
            },
        );
    }
    if state.schemas.contains_key(lower.as_str()) || state.stores.contains_key(lower.as_str()) {
        return Err(Error::TableAlreadyExists(lower));
    }
    if !same_text(pending.schema.table_name_lower.as_str(), lower.as_str()) {
        return Err(
            Error::InvalidArgument(
                String::from_str("pending table identity '").concat(table.name.as_str()).concat(
                    "' does not match schema '",
                ).concat(pending.schema.table_name.as_str()).concat("'"),
            ),
        );
    }
    validate_schema(&pending.schema, &table.verdicts)
}

/// Every created table still has its reservation and a free name.
pub fn check_reservations(state: &CatalogState, request: &DdlRequest) -> (r: Result<(), Error>)
    requires
        state.wf(),
    ensures
        refusal(r) == first_refusal(
            0,
            request.created_tables@.len() as int,
            reservation_check(*state, *request),
        ),
{
    let ghost n = request.created_tables@.len() as int;
    let ghost check = reservation_check(*state, *request);
    let mut i: usize = 0;
    while i < request.created_tables.len()
        invariant
            0 <= i <= request.created_tables@.len() == n,
            state.wf(),
            check == reservation_check(*state, *request),
            first_refusal(0, n, check) == first_refusal(i as int, n, check),
        decreases request.created_tables@.len() - i,
    {
        let r: Result<(), Error> = check_reservation(
            state,
            request.txn_id,
            &request.created_tables[i],
        );
        assert(check(i as int) == refusal(r));
        if r.is_err() {
            return r;
        }
        i = i + 1;
    }
    Ok(())
}

/// A view may not take the name of a table that is still held back.
pub open spec fn view_conflict_check(
    pending: Map<Seq<char>, PendingTable>,
    views: Seq<ViewDefinition>,
) -> spec_fn(int) -> Option<ErrorView> {
    |i: int|
        if pending.dom().contains(views[i].name@) {
            Some(ErrorView::TableAlreadyExists(views[i].original_name@))
        } else {
            None
        }
}

/// No view of the next catalog takes the name of a table held back.
pub fn check_view_conflicts(pending: &NameMap<PendingTable>, views: &Vec<ViewDefinition>) -> (r:
    Result<(), Error>)
    requires
        pending.wf(),
    ensures
        refusal(r) == first_refusal(
            0,
            views@.len() as int,
            view_conflict_check(pending@, views@),
        ),
{
    let ghost n = views@.len() as int;
    let ghost check = view_conflict_check(pending@, views@);
    let mut i: usize = 0;
    while i < views.len()
        invariant
            0 <= i <= views@.len() == n,
            pending.wf(),
            check == view_conflict_check(pending@, views@),
            first_refusal(0, n, check) == first_refusal(i as int, n, check),
        decreases views@.len() - i,
    {
        if pending.contains_key(views[i].name.as_str()) {
            let e: Error = Error::TableAlreadyExists(views[i].original_name.clone());
            assert(check(i as int) == Some(e@));
            return Err(e);
        }
        assert(check(i as int) is None);
        i = i + 1;
    }
    Ok(())
}

/// A dropped table must still have the schema that the transaction saw.
pub open spec fn drop_refusal(
    schemas: Map<Seq<char>, Schema>,
    table: DroppedTable,
) -> Option<ErrorView> {
    if !schemas.dom().contains(table.name@) {
        Some(ErrorView::TableNotFound(table.name@))
    } else if schemas[table.name@]@ != table.schema@ {
        Some(
            ErrorView::InvalidArgument(
                "transactional DROP TABLE conflict on '"@ + table.name@
                    + "': catalog changed; retry the transaction"@,
            ),
        )
    } else {
        None
    }
}

pub open spec fn drop_check(
    schemas: Map<Seq<char>, Schema>,
    tables: Seq<DroppedTable>,
) -> spec_fn(int) -> Option<ErrorView> {
    |i: int| drop_refusal(schemas, tables[i])
}

/// Every dropped table still has the schema that the transaction saw.
pub fn check_drops(schemas: &NameMap<Schema>, tables: &Vec<DroppedTable>) -> (r: Result<(), Error>)
    requires
        schemas.wf(),
    ensures
        refusal(r) == first_refusal(0, tables@.len() as int, drop_check(schemas@, tables@)),
{
    let ghost n = tables@.len() as int;
    let ghost check = drop_check(schemas@, tables@);
    let mut i: usize = 0;
    while i < tables.len()
        invariant
            0 <= i <= tables@.len() == n,
            schemas.wf(),
            check == drop_check(schemas@, tables@),
            first_refusal(0, n, check) == first_refusal(i as int, n, check),
        decreases tables@.len() - i,
    {
        let table: &DroppedTable = &tables[i];
        assert(check(i as int) == drop_refusal(schemas@, *table));
        match schemas.get(table.name.as_str()) {
            None => {
                return Err(Error::TableNotFound(table.name.clone()));
            },
            Some(current) => {
                if !current.same(&table.schema) {
                    return Err(
                        Error::InvalidArgument(
                            String::from_str("transactional DROP TABLE conflict on '").concat(
                                table.name.as_str(),
                            ).concat("': catalog changed; retry the transaction"),
                        ),
                    );
                }
            },
        }
        i = i + 1;
    }
    Ok(())
}

/// A view may not read a dropped table.
pub open spec fn dependent_check(
    dropped: Seq<DroppedTable>,
    view: ViewDefinition,
) -> spec_fn(int) -> Option<ErrorView> {
    |i: int|
        if drops(dropped, view.dependencies@[i]@) {
            Some(
                ErrorView::NotSupported(
                    "cannot drop table '"@ + view.dependencies@[i]@ + "' while view '"@
                        + view.original_name@ + "' depends on it"@,
                ),
            )
        } else {
            None
        }
}

pub open spec fn view_dependents_check(
    dropped: Seq<DroppedTable>,
    views: Seq<(String, ViewDefinition)>,
) -> spec_fn(int) -> Option<ErrorView> {
    |i: int|
        first_refusal(
            0,
            views[i].1.dependencies@.len() as int,
            dependent_check(dropped, views[i].1),
        )
}

fn check_dependent(dropped: &Vec<DroppedTable>, view: &ViewDefinition) -> (r: Result<(), Error>)
    ensures
        refusal(r) == first_refusal(
            0,
            view.dependencies@.len() as int,
            dependent_check(dropped@, *view),
        ),
{
    let ghost n = view.dependencies@.len() as int;
    let ghost check = dependent_check(dropped@, *view);
    let mut i: usize = 0;
    while i < view.dependencies.len()
        invariant
            0 <= i <= view.dependencies@.len() == n,
            check == dependent_check(dropped@, *view),
            first_refusal(0, n, check) == first_refusal(i as int, n, check),
        decreases view.dependencies@.len() - i,
    {
        if is_dropped(dropped, view.dependencies[i].as_str()) {
            let e: Error = Error::NotSupported(
                String::from_str("cannot drop table '").concat(
                    view.dependencies[i].as_str(),
                ).concat("' while view '").concat(view.original_name.as_str()).concat(
                    "' depends on it",
                ),
            );
            assert(check(i as int) == Some(e@));
            return Err(e);
        }
        assert(check(i as int) is None);
        i = i + 1;
    }
    Ok(())
}

/// No view reads a dropped table.
pub fn check_view_dependents(dropped: &Vec<DroppedTable>, views: &NameMap<ViewDefinition>) -> (r:
    Result<(), Error>)
    ensures
        refusal(r) == first_refusal(
            0,
            views.listed().len() as int,
            view_dependents_check(dropped@, views.listed()),
        ),
{
    let ghost n = views.listed().len() as int;
    let ghost check = view_dependents_check(dropped@, views.listed());
    let mut i: usize = 0;
    while i < views.len()
        invariant
            0 <= i <= views.listed().len() == n,
            check == view_dependents_check(dropped@, views.listed()),
            first_refusal(0, n, check) == first_refusal(i as int, n, check),
        decreases n - i,
    {
        let r: Result<(), Error> = check_dependent(dropped, views.value_at(i));
        assert(check(i as int) == refusal(r));
        if r.is_err() {
            return r;
        }
        i = i + 1;
    }
    Ok(())
}

/// Normalized name of the table that a staged schema belongs to.
pub open spec fn change_name(changes: Seq<PendingSchemaChange>, i: int) -> Seq<char> {
    lowercase_text(changes[i].table_name@)
}

/// Whether a staged schema is the last one of its table.
pub open spec fn is_last_change(changes: Seq<PendingSchemaChange>, i: int) -> bool {
    &&& 0 <= i < changes.len()
    &&& forall|k: int| i < k < changes.len() ==> #[trigger] change_name(changes, k) != change_name(
        changes,
        i,
    )
}

/// The last staged schema of every table, in the order of normalized names.
pub open spec fn is_final_order(changes: Seq<PendingSchemaChange>, order: Seq<usize>) -> bool {
    &&& forall|a: int| 0 <= a < order.len() ==> is_last_change(changes, #[trigger] order[a] as int)
    &&& forall|a: int, b: int|
        0 <= a < b < order.len() ==> text_before(
            change_name(changes, #[trigger] order[a] as int),
            change_name(changes, #[trigger] order[b] as int),
        )
    &&& forall|i: int| #[trigger]
        is_last_change(changes, i) ==> exists|a: int| 0 <= a < order.len() && #[trigger] order[a] == i
}

fn is_last(changes: &Vec<PendingSchemaChange>, i: usize) -> (r: bool)
    requires
        i < changes@.len(),
    ensures
        r == is_last_change(changes@, i as int),
{
    let lower: String = to_lowercase(changes[i].table_name.as_str());
    let total: usize = changes.len();
    let mut k: usize = i + 1;
    while k < total
        invariant
            i < k <= changes@.len() == total,
            lower@ == change_name(changes@, i as int),
            forall|m: int| i < m < k ==> #[trigger] change_name(changes@, m) != lower@,
        decreases changes@.len() - k,
    {
        let other: String = to_lowercase(changes[k].table_name.as_str());
        if same_text(lower.as_str(), other.as_str()) {
            assert(change_name(changes@, k as int) == change_name(changes@, i as int));
            return false;
        }
        k = k + 1;
    }
    true
}

/// Puts a change behind those with smaller names.
fn insert_ordered(changes: &Vec<PendingSchemaChange>, order: &mut Vec<usize>, i: usize)
    requires
        i < changes@.len(),
        forall|a: int| 0 <= a < old(order)@.len() ==> (#[trigger] old(order)@[a]) < changes@.len(),
        forall|a: int|
            0 <= a < old(order)@.len() ==> change_name(changes@, #[trigger] old(order)@[a] as int)
                != change_name(changes@, i as int),
        forall|a: int, b: int|
            0 <= a < b < old(order)@.len() ==> text_before(
                change_name(changes@, #[trigger] old(order)@[a] as int),
                change_name(changes@, #[trigger] old(order)@[b] as int),
            ),
    ensures
        exists|at: int|
            0 <= at <= old(order)@.len() && final(order)@ == #[trigger] old(order)@.insert(at, i),
        forall|a: int, b: int|
            0 <= a < b < final(order)@.len() ==> text_before(
                change_name(changes@, #[trigger] final(order)@[a] as int),
                change_name(changes@, #[trigger] final(order)@[b] as int),
            ),
{
    let lower: String = to_lowercase(changes[i].table_name.as_str());
    let mut at: usize = 0;
    while at < order.len()
        invariant_except_break
            0 <= at <= order@.len(),
        invariant
            order@ == old(order)@,
            i < changes@.len(),
            lower@ == change_name(changes@, i as int),
            at <= order@.len(),
            forall|a: int| 0 <= a < order@.len() ==> (#[trigger] order@[a]) < changes@.len(),
            forall|a: int|
                0 <= a < at ==> text_before(
                    change_name(changes@, #[trigger] order@[a] as int),
                    lower@,
                ),
        ensures
            at < order@.len() ==> !text_before(change_name(changes@, order@[at as int] as int), lower@),
        decreases order@.len() - at,
    {
        let other: String = to_lowercase(changes[order[at]].table_name.as_str());
        if !is_text_before(other.as_str(), lower.as_str()) {
            break;
        }
        at = at + 1;
    }
    let ghost before = order@;
    order.insert(at, i);
    proof {
        let now = order@;
        assert(now == before.insert(at as int, i));
        assert forall|a: int, b: int| 0 <= a < b < now.len() implies text_before(
            change_name(changes@, #[trigger] now[a] as int),
            change_name(changes@, #[trigger] now[b] as int),
        ) by {
            if at < before.len() {
                let next = change_name(changes@, before[at as int] as int);
                lemma_text_before_total(next, lower@);
            }
            if a == at {
                let here = change_name(changes@, before[b - 1] as int);
                if b - 1 > at {
                    let next = change_name(changes@, before[at as int] as int);
                    assert(text_before(next, here));
                    lemma_text_before_transitive(lower@, next, here);
                }
            }
        }
    }
}

/// The last staged schema of every table, in the order of normalized names.
pub fn final_schema_changes(changes: &Vec<PendingSchemaChange>) -> (order: Vec<usize>)
    ensures
        is_final_order(changes@, order@),
{
    let mut order: Vec<usize> = Vec::new();
    let mut i: usize = 0;
    while i < changes.len()
        invariant
            0 <= i <= changes@.len(),
            forall|a: int|
                0 <= a < order@.len() ==> (#[trigger] order@[a]) < i && is_last_change(
                    changes@,
                    order@[a] as int,
                ),
            forall|a: int, b: int|
                0 <= a < b < order@.len() ==> text_before(
                    change_name(changes@, #[trigger] order@[a] as int),
                    change_name(changes@, #[trigger] order@[b] as int),
                ),
            forall|m: int|
                m < i && #[trigger] is_last_change(changes@, m) ==> exists|a: int|
                    0 <= a < order@.len() && #[trigger] order@[a] == m,
        decreases changes@.len() - i,
    {
        if is_last(changes, i) {
            let ghost before = order@;
            proof {
                assert forall|a: int| 0 <= a < before.len() implies change_name(
                    changes@,
                    #[trigger] before[a] as int,
                ) != change_name(changes@, i as int) by {
                    assert(is_last_change(changes@, before[a] as int));
                }
            }
            insert_ordered(changes, &mut order, i);
            proof {
                let at = choose|at: int|
                    0 <= at <= before.len() && order@ == #[trigger] before.insert(at, i);
                assert forall|m: int|
                    m < i + 1 && #[trigger] is_last_change(changes@, m) implies exists|a: int|
                    0 <= a < order@.len() && #[trigger] order@[a] == m by {
                    if m == i {
                        assert(order@[at] == m);
                    } else {
                        let a = choose|a: int| 0 <= a < before.len() && #[trigger] before[a] == m;
                        let b = if a < at {
                            a
                        } else {
                            a + 1
                        };
                        assert(order@[b] == m);
                    }
                }
                assert forall|a: int| 0 <= a < order@.len() implies (#[trigger] order@[a]) < i + 1
                    && is_last_change(changes@, order@[a] as int) by {
                    if a < at {
                        assert(order@[a] == before[a]);
                    } else if a > at {
                        assert(order@[a] == before[a - 1]);
                    }
                }
            }
        }
        i = i + 1;
    }
    order
}

/// A staged schema must still stand on the catalog schema it was staged on.
pub open spec fn change_refusal(
    schemas: Map<Seq<char>, Schema>,
    created: Seq<CreatedTable>,
    change: PendingSchemaChange,
) -> Option<ErrorView> {
    if creates(created, lowercase_text(change.table_name@)) {
        None
    } else if !schemas.dom().contains(change.table_name@) {
        Some(ErrorView::TableNotFound(change.table_name@))
    } else if schemas[change.table_name@]@ != change.expected_catalog_schema@ {
        Some(
            ErrorView::InvalidArgument(
                "transactional DDL conflict on table '"@ + change.table_name@
                    + "': catalog changed; retry the transaction"@,
            ),
        )
    } else {
        judged(change.schema@, change.verdicts)
    }
}

pub open spec fn change_check(
    schemas: Map<Seq<char>, Schema>,
    created: Seq<CreatedTable>,
    changes: Seq<PendingSchemaChange>,
    order: Seq<usize>,
) -> spec_fn(int) -> Option<ErrorView> {
    |i: int| change_refusal(schemas, created, changes[order[i] as int])
}

/// Every final schema still stands on the catalog it was staged on.
pub fn check_schema_changes(
    schemas: &NameMap<Schema>,
    created: &Vec<CreatedTable>,
    changes: &Vec<PendingSchemaChange>,
    order: &Vec<usize>,
) -> (r: Result<(), Error>)
    requires
        schemas.wf(),
        is_final_order(changes@, order@),
    ensures
        refusal(r) == first_refusal(
            0,
            order@.len() as int,
            change_check(schemas@, created@, changes@, order@),
        ),
{
    let ghost n = order@.len() as int;
    let ghost check = change_check(schemas@, created@, changes@, order@);
    let mut i: usize = 0;
    while i < order.len()
        invariant
            0 <= i <= order@.len() == n,
            schemas.wf(),
            is_final_order(changes@, order@),
            check == change_check(schemas@, created@, changes@, order@),
            first_refusal(0, n, check) == first_refusal(i as int, n, check),
        decreases order@.len() - i,
    {
        assert(is_last_change(changes@, order@[i as int] as int));
        let change: &PendingSchemaChange = &changes[order[i]];
        assert(check(i as int) == change_refusal(schemas@, created@, *change));
        let lower: String = to_lowercase(change.table_name.as_str());
        if !is_created(created, lower.as_str()) {
            match schemas.get(change.table_name.as_str()) {
                None => {
                    return Err(Error::TableNotFound(change.table_name.clone()));
                },
                Some(current) => {
                    if !current.same(&change.expected_catalog_schema) {
                        return Err(
                            Error::InvalidArgument(
                                String::from_str("transactional DDL conflict on table '").concat(
                                    change.table_name.as_str(),
                                ).concat("': catalog changed; retry the transaction"),
                            ),
                        );
                    }
                    let r: Result<(), Error> = validate_schema(&change.schema, &change.verdicts);
                    if r.is_err() {
                        return r;
                    }
                },
            }
        }
        i = i + 1;
    }
    Ok(())
}

/// Whether an index keys on a column.
pub open spec fn keys_on(index: IndexInfo, column: int) -> bool {
    exists|k: int|
        0 <= k < index.column_ids@.len() && (#[trigger] index.column_ids@[k]) as usize == column
}

/// Whether an index keys on a column behind this one.
pub open spec fn keys_behind(index: IndexInfo, column: int) -> bool {
    exists|k: int|
        0 <= k < index.column_ids@.len() && (#[trigger] index.column_ids@[k]) as usize > column
}

/// Whether a name resolves to this column or one behind it.
pub open spec fn resolves_from(schema: SchemaView, name: Seq<char>, column: int) -> bool {
    column_position(schema, name) matches Some(p) && p >= column
}

/// Whether an index predicate refers to this column or one behind it.
pub open spec fn predicate_reaches(index: IndexInfo, schema: SchemaView, column: int) -> bool {
    match index.predicate_columns {
        Some(names) => any_resolves_from(schema, names@, column),
        None => false,
    }
}

pub open spec fn any_resolves_from(schema: SchemaView, names: Seq<String>, column: int) -> bool {
    exists|k: int| 0 <= k < names.len() && resolves_from(schema, (#[trigger] names[k])@, column)
}

pub open spec fn any_is_named(names: Seq<String>, name: Seq<char>) -> bool {
    exists|k: int| 0 <= k < names.len() && same_ignoring_ascii_case((#[trigger] names[k])@, name)
}

/// Whether an index predicate refers to a column of this name.
pub open spec fn predicate_names(index: IndexInfo, name: Seq<char>) -> bool {
    match index.predicate_columns {
        Some(names) => any_is_named(names@, name),
        None => false,
    }
}

/// Whether one index stands in the way of a column change.
pub open spec fn transition_index_refusal(
    table_name: Seq<char>,
    schema: SchemaView,
    index: IndexInfo,
    transition: SchemaPhysicalTransition,
) -> Option<ErrorView> {
    match transition {
        SchemaPhysicalTransition::DropColumn { column_name, column_index } => {
            if keys_on(index, column_index as int) {
                Some(
                    ErrorView::NotSupported(
                        "DROP COLUMN cannot remove indexed column '"@ + table_name + "."@
                            + column_name@ + "' while index '"@ + index.name@
                            + "' exists; drop the index first"@,
                    ),
                )
            } else if index.predicate_columns is Some && (keys_behind(index, column_index as int)
                || predicate_reaches(index, schema, column_index as int)) {
                Some(
                    ErrorView::NotSupported(
                        "DROP COLUMN cannot shift partial index '"@ + index.name@ + "' metadata"@,
                    ),
                )
            } else {
                None
            }
        },
        SchemaPhysicalTransition::RenameColumn { old_name, new_name } => {
            if predicate_names(index, old_name@) {
                Some(
                    ErrorView::NotSupported(
                        "RENAME COLUMN cannot rewrite partial index '"@ + index.name@
                            + "' predicate"@,
                    ),
                )
            } else {
                None
            }
        },
    }
}

pub open spec fn transition_index_check(
    table_name: Seq<char>,
    store: Store,
    transition: SchemaPhysicalTransition,
) -> spec_fn(int) -> Option<ErrorView> {
    |i: int|
        transition_index_refusal(table_name, store.schema@, store.indexes@[i], transition)
}

/// Whether a column change can be carried out on its table.
pub open spec fn transition_refusal(
    stores: Map<Seq<char>, Store>,
    change: PendingSchemaChange,
) -> Option<ErrorView> {
    match change.physical_transition {
        None => None,
        Some(transition) => if !stores.dom().contains(change.table_name@) {
            Some(ErrorView::TableNotFound(change.table_name@))
        } else {
            let store = stores[change.table_name@];
            first_refusal(
                0,
                store.indexes@.len() as int,
                transition_index_check(change.table_name@, store, transition),
            )
        },
    }
}

pub open spec fn transition_check(
    stores: Map<Seq<char>, Store>,
    changes: Seq<PendingSchemaChange>,
) -> spec_fn(int) -> Option<ErrorView> {
    |i: int| transition_refusal(stores, changes[i])
}

fn any_key(index: &IndexInfo, column: usize, behind: bool) -> (r: bool)
    ensures
        behind ==> r == keys_behind(*index, column as int),
        !behind ==> r == keys_on(*index, column as int),
{
    let mut k: usize = 0;
    while k < index.column_ids.len()
        invariant
            0 <= k <= index.column_ids@.len(),
            forall|m: int|
                0 <= m < k ==> if behind {
                    !((#[trigger] index.column_ids@[m]) as usize > column)
                } else {
                    (index.column_ids@[m]) as usize != column
                },
        decreases index.column_ids@.len() - k,
    {
        let id: usize = index.column_ids[k] as usize;
        if (behind && id > column) || (!behind && id == column) {
            assert(index.column_ids@[k as int] as usize == id);
            return true;
        }
        k = k + 1;
    }
    false
}

fn reaches(index: &IndexInfo, schema: &Schema, column: usize) -> (r: bool)
    ensures
        r == predicate_reaches(*index, schema@, column as int),
{
    match &index.predicate_columns {
        None => false,
        Some(names) => {
            let mut k: usize = 0;
            while k < names.len()
                invariant
                    0 <= k <= names@.len(),
                    index.predicate_columns == Some(*names),
                    forall|m: int|
                        0 <= m < k ==> !resolves_from(
                            schema@,
                            (#[trigger] names@[m])@,
                            column as int,
                        ),
                decreases names@.len() - k,
            {
                let found: Option<usize> = schema.get_column_index(names[k].as_str());
                let hit: bool = match found {
                    Some(p) => p >= column,
                    None => false,
                };
                assert(hit == resolves_from(schema@, names@[k as int]@, column as int));
                if hit {
                    assert(any_resolves_from(schema@, names@, column as int));
                    return true;
                }
                k = k + 1;
            }
            false
        },
    }
}

fn mentions(index: &IndexInfo, name: &str) -> (r: bool)
    ensures
        r == predicate_names(*index, name@),
{
    match &index.predicate_columns {
        None => false,
        Some(names) => {
            let mut k: usize = 0;
            while k < names.len()
                invariant
                    0 <= k <= names@.len(),
                    index.predicate_columns == Some(*names),
                    forall|m: int|
                        0 <= m < k ==> !same_ignoring_ascii_case((#[trigger] names@[m])@, name@),
                decreases names@.len() - k,
            {
                if eq_ignore_ascii_case(names[k].as_str(), name) {
                    assert(same_ignoring_ascii_case(names@[k as int]@, name@));
                    assert(any_is_named(names@, name@));
                    return true;
                }
                k = k + 1;
            }
            false
        },
    }
}

fn check_transition_index(
    table_name: &str,
    schema: &Schema,
    index: &IndexInfo,
    transition: &SchemaPhysicalTransition,
) -> (r: Result<(), Error>)
    ensures
        refusal(r) == transition_index_refusal(table_name@, schema@, *index, *transition),
{
    match transition {
        SchemaPhysicalTransition::DropColumn { column_name, column_index } => {
            if any_key(index, *column_index, false) {
                return Err(
                    Error::NotSupported(
                        String::from_str("DROP COLUMN cannot remove indexed column '").concat(
                            table_name,
                        ).concat(".").concat(column_name.as_str()).concat(
                            "' while index '",
                        ).concat(index.name.as_str()).concat("' exists; drop the index first"),
                    ),
                );
            }
            if index.predicate_columns.is_some() && (any_key(index, *column_index, true) || reaches(
                index,
                schema,
                *column_index,
            )) {
                return Err(
                    Error::NotSupported(
                        String::from_str("DROP COLUMN cannot shift partial index '").concat(
                            index.name.as_str(),
                        ).concat("' metadata"),
                    ),
                );
            }
            Ok(())
        },
        SchemaPhysicalTransition::RenameColumn { old_name, new_name } => {
            if mentions(index, old_name.as_str()) {
                return Err(
                    Error::NotSupported(
                        String::from_str("RENAME COLUMN cannot rewrite partial index '").concat(
                            index.name.as_str(),
                        ).concat("' predicate"),
                    ),
                );
            }
            Ok(())
        },
    }
}

fn check_transition(stores: &NameMap<Store>, change: &PendingSchemaChange) -> (r: Result<(), Error>)
    requires
        stores.wf(),
    ensures
        refusal(r) == transition_refusal(stores@, *change),
{
    match &change.physical_transition {
        None => Ok(()),
        Some(transition) => match stores.get(change.table_name.as_str()) {
            None => Err(Error::TableNotFound(change.table_name.clone())),
            Some(store) => {
                let ghost n = store.indexes@.len() as int;
                let ghost check = transition_index_check(change.table_name@, *store, *transition);
                let mut i: usize = 0;
                while i < store.indexes.len()
                    invariant
                        0 <= i <= store.indexes@.len() == n,
                        check == transition_index_check(change.table_name@, *store, *transition),
                        first_refusal(0, n, check) == first_refusal(i as int, n, check),
                        stores@.dom().contains(change.table_name@),
                        stores@[change.table_name@] == *store,
                        change.physical_transition == Some(*transition),
                    decreases store.indexes@.len() - i,
                {
                    let r: Result<(), Error> = check_transition_index(
                        change.table_name.as_str(),
                        &store.schema,
                        &store.indexes[i],
                        transition,
                    );
                    assert(check(i as int) == refusal(r));
                    if r.is_err() {
                        return r;
                    }
                    i = i + 1;
                }
                Ok(())
            },
        },
    }
}

/// Every column change can be carried out on its table.
pub fn check_transitions(stores: &NameMap<Store>, changes: &Vec<PendingSchemaChange>) -> (r: Result<
    (),
    Error,
>)
    requires
        stores.wf(),
    ensures
        refusal(r) == first_refusal(0, changes@.len() as int, transition_check(stores@, changes@)),
{
    let ghost n = changes@.len() as int;
    let ghost check = transition_check(stores@, changes@);
    let mut i: usize = 0;
    while i < changes.len()
        invariant
            0 <= i <= changes@.len() == n,
            stores.wf(),
            check == transition_check(stores@, changes@),
            first_refusal(0, n, check) == first_refusal(i as int, n, check),
        decreases changes@.len() - i,
    {
        let r: Result<(), Error> = check_transition(stores, &changes[i]);
        assert(check(i as int) == refusal(r));
        if r.is_err() {
            return r;
        }
        i = i + 1;
    }
    Ok(())
}

/// A dropped index must exist, unless its table goes too.
pub open spec fn index_drop_refusal(
    stores: Map<Seq<char>, Store>,
    dropped: Seq<DroppedTable>,
    drop: PendingIndexDrop,
) -> Option<ErrorView> {
    let lower = lowercase_text(drop.table_name@);
    if drops(dropped, lower) {
        None
    } else if !stores.dom().contains(lower) {
        Some(ErrorView::TableNotFound(drop.table_name@))
    } else if !has_index(stores[lower].indexes@, drop.index_name@) {
        Some(ErrorView::IndexNotFound(drop.index_name@))
    } else {
        None
    }
}

pub open spec fn index_drop_check(
    stores: Map<Seq<char>, Store>,
    dropped: Seq<DroppedTable>,
    index_drops: Seq<PendingIndexDrop>,
) -> spec_fn(int) -> Option<ErrorView> {
    |i: int| index_drop_refusal(stores, dropped, index_drops[i])
}

/// Every dropped index exists, unless its table goes too.
pub fn check_index_drops(
    stores: &NameMap<Store>,
    dropped: &Vec<DroppedTable>,
    index_drops: &Vec<PendingIndexDrop>,
) -> (r: Result<(), Error>)
    requires
        stores.wf(),
    ensures
        refusal(r) == first_refusal(
            0,
            index_drops@.len() as int,
            index_drop_check(stores@, dropped@, index_drops@),
        ),
{
    let ghost n = index_drops@.len() as int;
    let ghost check = index_drop_check(stores@, dropped@, index_drops@);
    let mut i: usize = 0;
    while i < index_drops.len()
        invariant
            0 <= i <= index_drops@.len() == n,
            stores.wf(),
            check == index_drop_check(stores@, dropped@, index_drops@),
            first_refusal(0, n, check) == first_refusal(i as int, n, check),
        decreases index_drops@.len() - i,
    {
        let drop: &PendingIndexDrop = &index_drops[i];
        assert(check(i as int) == index_drop_refusal(stores@, dropped@, *drop));
        let lower: String = to_lowercase(drop.table_name.as_str());
        if !is_dropped(dropped, lower.as_str()) {
            match stores.get(lower.as_str()) {
                None => {
                    return Err(Error::TableNotFound(drop.table_name.clone()));
                },
                Some(store) => {
                    if !store.has_index(drop.index_name.as_str()) {
                        return Err(Error::IndexNotFound(drop.index_name.clone()));
                    }
                },
            }
        }
        i = i + 1;
    }
    Ok(())
}

/// A renamed index must exist and its new name must be free.
pub open spec fn index_rename_refusal(
    stores: Map<Seq<char>, Store>,
    rename: PendingIndexRename,
) -> Option<ErrorView> {
    let lower = lowercase_text(rename.table_name@);
    if !stores.dom().contains(lower) {
        Some(ErrorView::TableNotFound(rename.table_name@))
    } else if !has_index(stores[lower].indexes@, rename.old_index_name@) {
        Some(ErrorView::IndexNotFound(rename.old_index_name@))
    } else if has_index(stores[lower].indexes@, rename.new_index_name@) {
        Some(ErrorView::IndexAlreadyExists(rename.new_index_name@))
    } else {
        None
    }
}

pub open spec fn index_rename_check(
    stores: Map<Seq<char>, Store>,
    renames: Seq<PendingIndexRename>,
) -> spec_fn(int) -> Option<ErrorView> {
    |i: int| index_rename_refusal(stores, renames[i])
}

/// Every renamed index exists and its new name is free.
pub fn check_index_renames(stores: &NameMap<Store>, renames: &Vec<PendingIndexRename>) -> (r:
    Result<(), Error>)
    requires
        stores.wf(),
    ensures
        refusal(r) == first_refusal(
            0,
            renames@.len() as int,
            index_rename_check(stores@, renames@),
        ),
{
    let ghost n = renames@.len() as int;
    let ghost check = index_rename_check(stores@, renames@);
    let mut i: usize = 0;
    while i < renames.len()
        invariant
            0 <= i <= renames@.len() == n,
            stores.wf(),
            check == index_rename_check(stores@, renames@),
            first_refusal(0, n, check) == first_refusal(i as int, n, check),
        decreases renames@.len() - i,
    {
        let rename: &PendingIndexRename = &renames[i];
        assert(check(i as int) == index_rename_refusal(stores@, *rename));
        let lower: String = to_lowercase(rename.table_name.as_str());
        match stores.get(lower.as_str()) {
            None => {
                return Err(Error::TableNotFound(rename.table_name.clone()));
            },
            Some(store) => {
                if !store.has_index(rename.old_index_name.as_str()) {
                    return Err(Error::IndexNotFound(rename.old_index_name.clone()));
                }
                if store.has_index(rename.new_index_name.as_str()) {
                    return Err(Error::IndexAlreadyExists(rename.new_index_name.clone()));
                }
            },
        }
        i = i + 1;
    }
    Ok(())
}

/// Table renames one after the other: each old name must be taken and each
/// new name free at its turn.
pub open spec fn table_rename_refusal(
    names: Set<Seq<char>>,
    stores: Set<Seq<char>>,
    renames: Seq<PendingTableRename>,
    i: int,
) -> Option<ErrorView>
    decreases renames.len() - i,
{
    if i < 0 || i >= renames.len() {
        None
    } else {
        let old_name = renames[i].old_name@;
        let new_name = renames[i].new_name@;
        if !names.contains(old_name) || !stores.contains(old_name) {
            Some(ErrorView::TableNotFound(old_name))
        } else if names.remove(old_name).contains(new_name) {
            Some(ErrorView::TableAlreadyExists(new_name))
        } else {
            table_rename_refusal(names.remove(old_name).insert(new_name), stores, renames, i + 1)
        }
    }
}

/// Every table rename finds its old name taken and its new name free.
pub fn check_table_renames(
    schemas: &NameMap<Schema>,
    stores: &NameMap<Store>,
    renames: &Vec<PendingTableRename>,
) -> (r: Result<(), Error>)
    requires
        schemas.wf(),
        stores.wf(),
    ensures
        refusal(r) == table_rename_refusal(schemas@.dom(), stores@.dom(), renames@, 0),
{
    let mut names: NameMap<()> = NameMap::new();
    let mut k: usize = 0;
    while k < schemas.len()
        invariant
            0 <= k <= schemas.listed().len(),
            schemas.wf(),
            names.wf(),
            forall|name: Seq<char>|
                names@.dom().contains(name) <==> exists|i: int|
                    i < k && #[trigger] crate::names::named_at(schemas.listed(), name, i),
        decreases schemas.listed().len() - k,
    {
        let ghost before = names@.dom();
        let name: String = schemas.name_at(k).clone();
        names.insert(name, ());
        proof {
            assert forall|n: Seq<char>|
                names@.dom().contains(n) <==> exists|i: int|
                    i < k + 1 && #[trigger] crate::names::named_at(schemas.listed(), n, i) by {
                if names@.dom().contains(n) {
                    if n == name@ {
                        assert(crate::names::named_at(schemas.listed(), n, k as int));
                    } else {
                        assert(before.contains(n));
                    }
                }
            }
        }
        k = k + 1;
    }
    assert(names@.dom() =~= schemas@.dom());
    let mut i: usize = 0;
    while i < renames.len()
        invariant
            0 <= i <= renames@.len(),
            schemas.wf(),
            stores.wf(),
            names.wf(),
            table_rename_refusal(schemas@.dom(), stores@.dom(), renames@, 0)
                == table_rename_refusal(names@.dom(), stores@.dom(), renames@, i as int),
        decreases renames@.len() - i,
    {
        let rename: &PendingTableRename = &renames[i];
        let ghost before = names@.dom();
        let known: bool = names.remove(rename.old_name.as_str()).is_some();
        assert(names@.dom() =~= before.remove(rename.old_name@));
        if !known || !stores.contains_key(rename.old_name.as_str()) {
            return Err(Error::TableNotFound(rename.old_name.clone()));
        }
        let ghost between = names@.dom();
        if names.insert(rename.new_name.clone(), ()).is_some() {
            return Err(Error::TableAlreadyExists(rename.new_name.clone()));
        }
        assert(names@.dom() =~= between.insert(rename.new_name@));
        i = i + 1;
    }
    Ok(())
}

} // verus!
