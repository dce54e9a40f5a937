//! What the checks before a change of the catalog are for.
use super::final_catalog::changed_rows;
use super::final_catalog::changes_logically;
use super::final_catalog::created_rows;
use super::final_catalog::is_logical_at;
use super::final_catalog::row_checks;
use super::final_catalog::Catalog;
use super::index_build::can_defer;
use super::index_build::index_build;
use super::index_build::IndexBuild;
use super::plan::request_refusal;
use super::prepare::authority_refusal;
use super::prepare::change_check;
use super::prepare::drop_check;
use super::prepare::index_drop_check;
use super::prepare::index_rename_check;
use super::prepare::reservation_check;
use super::prepare::table_rename_refusal;
use super::prepare::transition_check;
use super::prepare::view_conflict_check;
use super::prepare::view_dependents_check;
use super::request::BoundCatalog;
use super::request::CatalogState;
use super::request::CreatedTable;
use super::request::DdlRequest;
use super::request::DroppedTable;
use super::request::PendingIndexDefinition;
use super::request::PendingIndexDrop;
use super::request::PendingIndexRename;
use super::request::PendingSchemaChange;
use super::request::PendingTable;
use super::request::PendingTableRename;
use super::request::SchemaPhysicalTransition;
use super::request::Store;
use crate::error::first_refusal;
use crate::error::lemma_no_refusal;
use crate::error::Error;
use crate::error::ErrorView;
use crate::schema::IndexInfo;
use crate::schema::IndexType;
use crate::schema::Schema;
use crate::text::lowercase_text;
use crate::text::same_ignoring_ascii_case;
use crate::view::ViewDefinition;
use vstd::prelude::*;

verus! {

proof fn lemma_all_pass(i: int, n: int, check: spec_fn(int) -> Option<ErrorView>)
    requires
        forall|k: int| i <= k < n ==> (#[trigger] check(k)) is None,
    ensures
        first_refusal(i, n, check) is None,
    decreases n - i,
{
    if i < n {
        lemma_all_pass(i + 1, n, check);
    }
}

/// No change of a table or an index goes through beside the catalog.
pub proof fn law_physical_change_needs_the_catalog(request: DdlRequest)
    ensures
        authority_refusal(request) is None <==> request.has_catalog_mutation || (
        request.created_tables@.len() == 0 && request.dropped_tables@.len() == 0
            && request.indexes@.len() == 0 && request.index_drops@.len() == 0
            && request.index_renames@.len() == 0 && request.table_renames@.len() == 0
            && request.schema_changes@.len() == 0),
{
}

/// A dropped table is there under the schema that the transaction saw.
pub open spec fn is_as_seen(schemas: Map<Seq<char>, Schema>, table: DroppedTable) -> bool {
    schemas.dom().contains(table.name@) && schemas[table.name@]@ == table.schema@
}

/// Drops are accepted exactly where each table is still as it was seen.
pub proof fn law_drops_need_the_seen_schema(
    schemas: Map<Seq<char>, Schema>,
    tables: Seq<DroppedTable>,
)
    ensures
        first_refusal(0, tables.len() as int, drop_check(schemas, tables)) is None <==> forall|
            i: int,
        |
            0 <= i < tables.len() ==> is_as_seen(schemas, #[trigger] tables[i]),
{
    let n = tables.len() as int;
    let check = drop_check(schemas, tables);
    if first_refusal(0, n, check) is None {
        lemma_no_refusal(0, n, check);
        assert forall|i: int| 0 <= i < n implies is_as_seen(schemas, #[trigger] tables[i]) by {
            assert(check(i) is None);
        }
    }
    if forall|i: int| 0 <= i < n ==> is_as_seen(schemas, #[trigger] tables[i]) {
        assert forall|i: int| 0 <= i < n implies (#[trigger] check(i)) is None by {
            assert(is_as_seen(schemas, tables[i]));
        }
        lemma_all_pass(0, n, check);
    }
}

/// A view reads a table that is dropped.
pub open spec fn reads_dropped(view: ViewDefinition, dropped: Seq<DroppedTable>) -> bool {
    exists|d: int, t: int|
        0 <= d < view.dependencies@.len() && 0 <= t < dropped.len() && lowercase_text(
            (#[trigger] dropped[t]).name@,
        ) == (#[trigger] view.dependencies@[d])@
}

proof fn lemma_dependents(view: ViewDefinition, dropped: Seq<DroppedTable>)
    ensures
        first_refusal(
            0,
            view.dependencies@.len() as int,
            super::prepare::dependent_check(dropped, view),
        ) is None <==> !reads_dropped(view, dropped),
{
    let n = view.dependencies@.len() as int;
    let check = super::prepare::dependent_check(dropped, view);
    if first_refusal(0, n, check) is None {
        lemma_no_refusal(0, n, check);
        if reads_dropped(view, dropped) {
            let (d, t) = choose|d: int, t: int|
                0 <= d < view.dependencies@.len() && 0 <= t < dropped.len() && lowercase_text(
                    (#[trigger] dropped[t]).name@,
                ) == (#[trigger] view.dependencies@[d])@;
            assert(super::request::drops_at(dropped, view.dependencies@[d]@, t));
            assert(check(d) is Some);
        }
    }
    if !reads_dropped(view, dropped) {
        assert forall|d: int| 0 <= d < n implies (#[trigger] check(d)) is None by {
            if super::request::drops(dropped, view.dependencies@[d]@) {
                let t = choose|t: int| #[trigger]
                    super::request::drops_at(dropped, view.dependencies@[d]@, t);
                assert(lowercase_text(dropped[t].name@) == view.dependencies@[d]@);
            }
        }
        lemma_all_pass(0, n, check);
    }
}

/// Drops are accepted exactly where no view reads a dropped table.
pub proof fn law_no_view_loses_its_table(
    dropped: Seq<DroppedTable>,
    views: Seq<(String, ViewDefinition)>,
)
    ensures
        first_refusal(0, views.len() as int, view_dependents_check(dropped, views)) is None
            <==> forall|i: int|
            0 <= i < views.len() ==> !reads_dropped((#[trigger] views[i]).1, dropped),
{
    let n = views.len() as int;
    let check = view_dependents_check(dropped, views);
    assert forall|i: int| 0 <= i < n implies (#[trigger] check(i)) is None == !reads_dropped(
        views[i].1,
        dropped,
    ) by {
        lemma_dependents(views[i].1, dropped);
    }
    if first_refusal(0, n, check) is None {
        lemma_no_refusal(0, n, check);
        assert forall|i: int| 0 <= i < n implies !reads_dropped((#[trigger] views[i]).1, dropped) by {
            assert(check(i) is None);
        }
    }
    if forall|i: int| 0 <= i < n ==> !reads_dropped((#[trigger] views[i]).1, dropped) {
        assert forall|i: int| 0 <= i < n implies (#[trigger] check(i)) is None by {
            assert(!reads_dropped(views[i].1, dropped));
        }
        lemma_all_pass(0, n, check);
    }
}

/// Views are accepted exactly where none takes the name of a table that is
/// still held back.
pub proof fn law_no_view_takes_a_reserved_name(
    pending: Map<Seq<char>, PendingTable>,
    views: Seq<ViewDefinition>,
)
    ensures
        first_refusal(0, views.len() as int, view_conflict_check(pending, views)) is None
            <==> forall|i: int|
            0 <= i < views.len() ==> !pending.dom().contains((#[trigger] views[i]).name@),
{
    let n = views.len() as int;
    let check = view_conflict_check(pending, views);
    if first_refusal(0, n, check) is None {
        lemma_no_refusal(0, n, check);
        assert forall|i: int| 0 <= i < n implies !pending.dom().contains(
            (#[trigger] views[i]).name@,
        ) by {
            assert(check(i) is None);
        }
    }
    if forall|i: int| 0 <= i < n ==> !pending.dom().contains((#[trigger] views[i]).name@) {
        assert forall|i: int| 0 <= i < n implies (#[trigger] check(i)) is None by {
            assert(!pending.dom().contains(views[i].name@));
        }
        lemma_all_pass(0, n, check);
    }
}

/// A created table that passes the checks has its reservation, made by this
/// transaction and under its own name, and its name is free.
pub proof fn law_reserved_table_is_free(state: CatalogState, request: DdlRequest, i: int)
    requires
        first_refusal(
            0,
            request.created_tables@.len() as int,
            reservation_check(state, request),
        ) is None,
        0 <= i < request.created_tables@.len(),
    ensures
        ({
            let lower = lowercase_text(request.created_tables@[i].name@);
            &&& state.pending@.dom().contains(lower)
            &&& state.pending@[lower].owner_txn_id == request.txn_id
            &&& state.pending@[lower].schema.table_name_lower@ == lower
            &&& !state.schemas@.dom().contains(lower)
            &&& !state.stores@.dom().contains(lower)
        }),
{
    let check = reservation_check(state, request);
    lemma_no_refusal(0, request.created_tables@.len() as int, check);
    assert(check(i) is None);
}

/// A staged schema that passes the checks is that of a table which the same
/// transaction creates, or stands on the schema that it was staged on.
pub proof fn law_staged_schema_stands_on_the_catalog(
    schemas: Map<Seq<char>, Schema>,
    created: Seq<CreatedTable>,
    changes: Seq<PendingSchemaChange>,
    order: Seq<usize>,
    a: int,
)
    requires
        first_refusal(0, order.len() as int, change_check(schemas, created, changes, order)) is None,
        0 <= a < order.len(),
    ensures
        ({
            let change = changes[order[a] as int];
            ||| exists|i: int|
                0 <= i < created.len() && lowercase_text((#[trigger] created[i]).name@)
                    == lowercase_text(change.table_name@)
            ||| schemas.dom().contains(change.table_name@) && schemas[change.table_name@]@
                == change.expected_catalog_schema@
        }),
{
    let check = change_check(schemas, created, changes, order);
    lemma_no_refusal(0, order.len() as int, check);
    assert(check(a) is None);
    let change = changes[order[a] as int];
    if super::request::creates(created, lowercase_text(change.table_name@)) {
        let i = choose|i: int| #[trigger]
            super::request::creates_at(created, lowercase_text(change.table_name@), i);
        assert(lowercase_text(created[i].name@) == lowercase_text(change.table_name@));
    }
}

/// An index of a store under a name.
pub open spec fn has_index_named(indexes: Seq<IndexInfo>, name: Seq<char>) -> bool {
    exists|k: int| 0 <= k < indexes.len() && (#[trigger] indexes[k]).name@ == name
}

proof fn lemma_has_index(indexes: Seq<IndexInfo>, name: Seq<char>)
    ensures
        super::request::has_index(indexes, name) == has_index_named(indexes, name),
{
    if super::request::has_index(indexes, name) {
        let k = choose|k: int| #[trigger] super::request::index_named_at(indexes, name, k);
        assert(indexes[k].name@ == name);
    }
    if has_index_named(indexes, name) {
        let k = choose|k: int| 0 <= k < indexes.len() && (#[trigger] indexes[k]).name@ == name;
        assert(super::request::index_named_at(indexes, name, k));
    }
}

/// A rename of an index can be carried out.
pub open spec fn can_rename_index(
    stores: Map<Seq<char>, Store>,
    rename: PendingIndexRename,
) -> bool {
    let lower = lowercase_text(rename.table_name@);
    &&& stores.dom().contains(lower)
    &&& has_index_named(stores[lower].indexes@, rename.old_index_name@)
    &&& !has_index_named(stores[lower].indexes@, rename.new_index_name@)
}

/// Renames of indexes are accepted exactly where each old name is taken and
/// each new name free.
pub proof fn law_index_renames_need_free_names(
    stores: Map<Seq<char>, Store>,
    renames: Seq<PendingIndexRename>,
)
    ensures
        first_refusal(0, renames.len() as int, index_rename_check(stores, renames)) is None
            <==> forall|i: int|
            0 <= i < renames.len() ==> can_rename_index(stores, #[trigger] renames[i]),
{
    let n = renames.len() as int;
    let check = index_rename_check(stores, renames);
    assert forall|i: int| 0 <= i < n implies (#[trigger] check(i)) is None == can_rename_index(
        stores,
        renames[i],
    ) by {
        let lower = lowercase_text(renames[i].table_name@);
        lemma_has_index(stores[lower].indexes@, renames[i].old_index_name@);
        lemma_has_index(stores[lower].indexes@, renames[i].new_index_name@);
    }
    if first_refusal(0, n, check) is None {
        lemma_no_refusal(0, n, check);
        assert forall|i: int| 0 <= i < n implies can_rename_index(stores, #[trigger] renames[i]) by {
            assert(check(i) is None);
        }
    }
    if forall|i: int| 0 <= i < n ==> can_rename_index(stores, #[trigger] renames[i]) {
        assert forall|i: int| 0 <= i < n implies (#[trigger] check(i)) is None by {
            assert(can_rename_index(stores, renames[i]));
        }
        lemma_all_pass(0, n, check);
    }
}

/// A drop of an index can be carried out, or goes with its table.
pub open spec fn can_drop_index(
    stores: Map<Seq<char>, Store>,
    dropped: Seq<DroppedTable>,
    drop: PendingIndexDrop,
) -> bool {
    let lower = lowercase_text(drop.table_name@);
    ||| exists|t: int|
        0 <= t < dropped.len() && lowercase_text((#[trigger] dropped[t]).name@) == lower
    ||| stores.dom().contains(lower) && has_index_named(stores[lower].indexes@, drop.index_name@)
}

/// Drops of indexes are accepted exactly where each index is there or goes with
/// its table.
pub proof fn law_index_drops_need_the_index(
    stores: Map<Seq<char>, Store>,
    dropped: Seq<DroppedTable>,
    drops: Seq<PendingIndexDrop>,
)
    ensures
        first_refusal(0, drops.len() as int, index_drop_check(stores, dropped, drops)) is None
            <==> forall|i: int|
            0 <= i < drops.len() ==> can_drop_index(stores, dropped, #[trigger] drops[i]),
{
    let n = drops.len() as int;
    let check = index_drop_check(stores, dropped, drops);
    assert forall|i: int| 0 <= i < n implies (#[trigger] check(i)) is None == can_drop_index(
        stores,
        dropped,
        drops[i],
    ) by {
        let lower = lowercase_text(drops[i].table_name@);
        lemma_has_index(stores[lower].indexes@, drops[i].index_name@);
        if super::request::drops(dropped, lower) {
            let t = choose|t: int| #[trigger] super::request::drops_at(dropped, lower, t);
            assert(lowercase_text(dropped[t].name@) == lower);
        }
        if exists|t: int|
            0 <= t < dropped.len() && lowercase_text((#[trigger] dropped[t]).name@) == lower {
            let t = choose|t: int|
                0 <= t < dropped.len() && lowercase_text((#[trigger] dropped[t]).name@) == lower;
            assert(super::request::drops_at(dropped, lower, t));
        }
    }
    if first_refusal(0, n, check) is None {
        lemma_no_refusal(0, n, check);
        assert forall|i: int| 0 <= i < n implies can_drop_index(
            stores,
            dropped,
            #[trigger] drops[i],
        ) by {
            assert(check(i) is None);
        }
    }
    if forall|i: int| 0 <= i < n ==> can_drop_index(stores, dropped, #[trigger] drops[i]) {
        assert forall|i: int| 0 <= i < n implies (#[trigger] check(i)) is None by {
            assert(can_drop_index(stores, dropped, drops[i]));
        }
        lemma_all_pass(0, n, check);
    }
}

/// Where column changes pass the checks, no index of the table keys on a
/// dropped column, no partial index keys on a column behind it, and no partial
/// index names a renamed column.
pub proof fn law_indexes_survive_column_changes(
    stores: Map<Seq<char>, Store>,
    changes: Seq<PendingSchemaChange>,
    i: int,
    x: int,
    k: int,
)
    requires
        first_refusal(0, changes.len() as int, transition_check(stores, changes)) is None,
        0 <= i < changes.len(),
        changes[i].physical_transition is Some,
    ensures
        stores.dom().contains(changes[i].table_name@),
        ({
            let indexes = stores[changes[i].table_name@].indexes@;
            0 <= x < indexes.len() ==> match changes[i].physical_transition->Some_0 {
                SchemaPhysicalTransition::DropColumn { column_name, column_index } => {
                    0 <= k < indexes[x].column_ids@.len() ==> {
                        &&& indexes[x].column_ids@[k] as usize != column_index
                        &&& indexes[x].predicate_columns is Some
                            ==> indexes[x].column_ids@[k] as usize <= column_index
                    }
                },
                SchemaPhysicalTransition::RenameColumn { old_name, new_name } => {
                    indexes[x].predicate_columns matches Some(names) ==> (0 <= k < names@.len()
                        ==> !same_ignoring_ascii_case(names@[k]@, old_name@))
                },
            }
        }),
{
    let outer = transition_check(stores, changes);
    lemma_no_refusal(0, changes.len() as int, outer);
    assert(outer(i) is None);
    let store = stores[changes[i].table_name@];
    let transition = changes[i].physical_transition->Some_0;
    let inner = super::prepare::transition_index_check(changes[i].table_name@, store, transition);
    lemma_no_refusal(0, store.indexes@.len() as int, inner);
    if 0 <= x < store.indexes@.len() {
        assert(inner(x) is None);
        let index = store.indexes@[x];
        match transition {
            SchemaPhysicalTransition::DropColumn { column_name, column_index } => {
                assert(!super::prepare::keys_on(index, column_index as int));
                if index.predicate_columns is Some {
                    assert(!super::prepare::keys_behind(index, column_index as int));
                }
            },
            SchemaPhysicalTransition::RenameColumn { old_name, new_name } => {
                assert(!super::prepare::predicate_names(index, old_name@));
            },
        }
    }
}

/// One rename of a table is accepted exactly where the old name is taken and
/// the new one free, or the same.
pub proof fn law_table_rename_needs_a_free_name(
    names: Set<Seq<char>>,
    stores: Set<Seq<char>>,
    rename: PendingTableRename,
)
    ensures
        table_rename_refusal(names, stores, seq![rename], 0) is None <==> {
            &&& names.contains(rename.old_name@)
            &&& stores.contains(rename.old_name@)
            &&& rename.new_name@ == rename.old_name@ || !names.contains(rename.new_name@)
        },
{
    reveal_with_fuel(table_rename_refusal, 3);
}

/// Renames of tables are checked in turn: a name that an earlier rename gave up
/// is free for a later one, and one that it took is not.
pub proof fn law_table_renames_are_checked_in_turn(
    names: Set<Seq<char>>,
    stores: Set<Seq<char>>,
    renames: Seq<PendingTableRename>,
    i: int,
)
    requires
        0 <= i < renames.len(),
        table_rename_refusal(names, stores, renames, i) is None,
    ensures
        ({
            let old_name = renames[i].old_name@;
            let new_name = renames[i].new_name@;
            &&& names.contains(old_name)
            &&& new_name == old_name || !names.contains(new_name)
            &&& table_rename_refusal(
                names.remove(old_name).insert(new_name),
                stores,
                renames,
                i + 1,
            ) is None
        }),
{
}

/// A request is admitted only where all of this holds together: no change goes
/// beside the catalog, every created table has its reservation and a free name,
/// every dropped table is as it was seen and no view reads it, no view takes a
/// reserved name, and every index that is dropped or renamed is there.
pub proof fn law_admitted_request_is_sound(
    state: CatalogState,
    request: DdlRequest,
    bound: Option<Result<BoundCatalog, Error>>,
    order: Seq<usize>,
    i: int,
)
    requires
        request_refusal(state, request, bound, order) is None,
    ensures
        request.has_catalog_mutation || (request.created_tables@.len() == 0
            && request.dropped_tables@.len() == 0 && request.indexes@.len() == 0
            && request.index_drops@.len() == 0 && request.index_renames@.len() == 0
            && request.table_renames@.len() == 0 && request.schema_changes@.len() == 0),
        0 <= i < request.created_tables@.len() ==> {
            let lower = lowercase_text(request.created_tables@[i].name@);
            &&& state.pending@.dom().contains(lower)
            &&& state.pending@[lower].owner_txn_id == request.txn_id
            &&& !state.schemas@.dom().contains(lower)
            &&& !state.stores@.dom().contains(lower)
        },
        0 <= i < request.dropped_tables@.len() ==> is_as_seen(
            state.schemas@,
            request.dropped_tables@[i],
        ),
        0 <= i < state.views.listed().len() ==> !reads_dropped(
            state.views.listed()[i].1,
            request.dropped_tables@,
        ),
        bound is Some ==> bound->Some_0 is Ok,
        bound is Some && 0 <= i < bound->Some_0->Ok_0.views@.len() ==> !state.pending@.dom().contains(
            bound->Some_0->Ok_0.views@[i].name@,
        ),
        0 <= i < request.index_drops@.len() ==> can_drop_index(
            state.stores@,
            request.dropped_tables@,
            request.index_drops@[i],
        ),
        0 <= i < request.index_renames@.len() ==> can_rename_index(
            state.stores@,
            request.index_renames@[i],
        ),
        table_rename_refusal(state.schemas@.dom(), state.stores@.dom(), request.table_renames@, 0)
            is None,
        0 <= i < order.len() ==> {
            let change = request.schema_changes@[order[i] as int];
            ||| exists|c: int|
                0 <= c < request.created_tables@.len() && lowercase_text(
                    (#[trigger] request.created_tables@[c]).name@,
                ) == lowercase_text(change.table_name@)
            ||| state.schemas@.dom().contains(change.table_name@)
                && state.schemas@[change.table_name@]@ == change.expected_catalog_schema@
        },
{
    law_physical_change_needs_the_catalog(request);
    if 0 <= i < request.created_tables@.len() {
        law_reserved_table_is_free(state, request, i);
    }
    law_drops_need_the_seen_schema(state.schemas@, request.dropped_tables@);
    law_no_view_loses_its_table(request.dropped_tables@, state.views.listed());
    if let Some(Ok(catalog)) = bound {
        law_no_view_takes_a_reserved_name(state.pending@, catalog.views@);
    }
    law_index_drops_need_the_index(state.stores@, request.dropped_tables@, request.index_drops@);
    law_index_renames_need_free_names(state.stores@, request.index_renames@);
    if 0 <= i < order.len() {
        law_staged_schema_stands_on_the_catalog(
            state.schemas@,
            request.created_tables@,
            request.schema_changes@,
            order,
            i,
        );
    }
}

proof fn lemma_changed_rows(
    catalog: Catalog,
    changes: Seq<PendingSchemaChange>,
    order: Seq<usize>,
    i: int,
    name: Seq<char>,
)
    requires
        0 <= i <= order.len(),
    ensures
        ({
            let out = changed_rows(catalog, changes, order, i);
            &&& catalog.dom().contains(name) ==> out.dom().contains(name)
            &&& forall|a: int|
                i <= a < order.len() && changes_logically(
                    changes,
                    changes[#[trigger] order[a] as int].table_name@,
                ) && lowercase_text(changes[order[a] as int].table_name@) == name
                    ==> out.dom().contains(name)
            &&& out.dom().contains(name) ==> catalog.dom().contains(name) || exists|a: int|
                i <= a < order.len() && changes_logically(
                    changes,
                    changes[#[trigger] order[a] as int].table_name@,
                ) && lowercase_text(changes[order[a] as int].table_name@) == name
        }),
    decreases order.len() - i,
{
    if i < order.len() {
        let change = changes[order[i] as int];
        let next = if changes_logically(changes, change.table_name@) {
            catalog.insert(lowercase_text(change.table_name@), change.schema@)
        } else {
            catalog
        };
        lemma_changed_rows(next, changes, order, i + 1, name);
        assert(changes[order[i] as int] == change);
    }
}

proof fn lemma_created_rows(
    catalog: Catalog,
    pending: Map<Seq<char>, PendingTable>,
    created: Seq<CreatedTable>,
    changes: Seq<PendingSchemaChange>,
    order: Seq<usize>,
    i: int,
    name: Seq<char>,
)
    requires
        0 <= i <= created.len(),
    ensures
        ({
            let out = created_rows(catalog, pending, created, changes, order, i);
            out.dom().contains(name) <==> catalog.dom().contains(name) || (
            pending.dom().contains(name) && exists|k: int|
                i <= k < created.len() && lowercase_text((#[trigger] created[k]).name@) == name)
        }),
    decreases created.len() - i,
{
    if i < created.len() {
        let lower = lowercase_text(created[i].name@);
        let next = if catalog.dom().contains(lower) || !pending.dom().contains(lower) {
            catalog
        } else {
            catalog.insert(
                lower,
                super::final_catalog::private_schema(pending[lower], changes, order, lower),
            )
        };
        lemma_created_rows(next, pending, created, changes, order, i + 1, name);
        if lower == name {
            assert(lowercase_text(created[i].name@) == name);
        }
    }
}

/// The rows of a table are checked again exactly where the transaction creates
/// it, or where the last schema staged for it comes with a change of the
/// constraints rather than of the columns.
pub proof fn law_changed_constraints_are_checked_on_rows(
    pending: Map<Seq<char>, PendingTable>,
    created: Seq<CreatedTable>,
    dropped: Seq<DroppedTable>,
    changes: Seq<PendingSchemaChange>,
    order: Seq<usize>,
    name: Seq<char>,
)
    ensures
        row_checks(pending, created, dropped, changes, order).dom().contains(name) <==> {
            ||| pending.dom().contains(name) && exists|k: int|
                0 <= k < created.len() && lowercase_text((#[trigger] created[k]).name@) == name
            ||| exists|a: int, k: int|
                0 <= a < order.len() && 0 <= k < changes.len() && lowercase_text(
                    changes[#[trigger] order[a] as int].table_name@,
                ) == name && same_ignoring_ascii_case(
                    (#[trigger] changes[k]).table_name@,
                    changes[order[a] as int].table_name@,
                ) && changes[k].physical_transition is None
        },
{
    let first = changed_rows(Map::empty(), changes, order, 0);
    lemma_changed_rows(Map::empty(), changes, order, 0, name);
    lemma_created_rows(first, pending, created, changes, order, 0, name);
    if first.dom().contains(name) {
        let a = choose|a: int|
            0 <= a < order.len() && changes_logically(
                changes,
                changes[#[trigger] order[a] as int].table_name@,
            ) && lowercase_text(changes[order[a] as int].table_name@) == name;
        let k = choose|k: int| #[trigger]
            is_logical_at(changes, changes[order[a] as int].table_name@, k);
        assert(changes[k].physical_transition is None);
    }
    if exists|a: int, k: int|
        0 <= a < order.len() && 0 <= k < changes.len() && lowercase_text(
            changes[#[trigger] order[a] as int].table_name@,
        ) == name && same_ignoring_ascii_case(
            (#[trigger] changes[k]).table_name@,
            changes[order[a] as int].table_name@,
        ) && changes[k].physical_transition is None {
        let (a, k) = choose|a: int, k: int|
            0 <= a < order.len() && 0 <= k < changes.len() && lowercase_text(
                changes[#[trigger] order[a] as int].table_name@,
            ) == name && same_ignoring_ascii_case(
                (#[trigger] changes[k]).table_name@,
                changes[order[a] as int].table_name@,
            ) && changes[k].physical_transition is None;
        assert(is_logical_at(changes, changes[order[a] as int].table_name@, k));
    }
}

/// An index is left for the backfill only where a later one can still make up
/// for it: never a unique or partial one, one with its own key encoding, a
/// vector index or a primary key, and only where cold segments are there and a
/// generation holds them.
pub proof fn law_only_plain_indexes_wait_for_backfill(
    definition: PendingIndexDefinition,
    has_physical_generation: bool,
    has_segments: bool,
    schemas: Map<Seq<char>, Schema>,
)
    requires
        can_defer(definition, has_physical_generation, has_segments, schemas),
    ensures
        !definition.is_unique,
        !definition.is_partial,
        !definition.has_key_encoder,
        has_physical_generation,
        has_segments,
        definition.columns@.len() > 0,
        definition.index_type != Some(IndexType::Hnsw),
        definition.columns@.len() == 1 ==> definition.index_type != Some(IndexType::PrimaryKey),
{
}

/// An index is built as its definition says: with its own encoding, later,
/// partially, as a vector index with its parameters, or plainly.
pub proof fn law_index_is_built_as_defined(definition: PendingIndexDefinition, deferrable: bool)
    ensures
        ({
            let build = index_build(definition, deferrable);
            &&& definition.has_key_encoder && definition.index_type is Some ==> build
                == (IndexBuild::WithKeyEncoder { index_type: definition.index_type->Some_0 })
            &&& !definition.has_key_encoder && deferrable ==> build
                == IndexBuild::DeferredColdBackfill
            &&& !definition.has_key_encoder && !deferrable && definition.is_partial ==> build
                == IndexBuild::Partial
            &&& !definition.has_key_encoder && !deferrable && !definition.is_partial
                && definition.index_type != Some(IndexType::Hnsw) ==> build == IndexBuild::Plain
            &&& !definition.has_key_encoder && !deferrable && !definition.is_partial
                && definition.index_type == Some(IndexType::Hnsw) ==> {
                &&& build is Hnsw
                &&& definition.hnsw_m is Some ==> build->Hnsw_m == definition.hnsw_m->Some_0
                &&& definition.hnsw_ef_construction is Some ==> build->Hnsw_ef_construction
                    == definition.hnsw_ef_construction->Some_0
                &&& definition.hnsw_ef_search is Some ==> build->Hnsw_ef_search
                    == definition.hnsw_ef_search->Some_0
            }
        }),
{
}

} // verus!
