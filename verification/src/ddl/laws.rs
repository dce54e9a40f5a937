//! What publishing a committed change of the catalog is for.
use super::commit::published_ddl;
use super::commit::PublishOutcomes;
use super::commit::RuntimeContents;
use super::final_catalog::Catalog;
use super::install::cold_after_drops;
use super::install::cold_after_renames;
use super::install::cold_without_indexes;
use super::install::schemas_after_drops;
use super::install::schemas_after_renames;
use super::install::stores_after_drops;
use super::install::stores_after_renames;
use super::install::stores_without_indexes;
use super::install::stripped_catalog;
use super::install::stripped_stores;
use super::install::with_bound_schemas;
use super::install::with_bound_views;
use super::install::with_index_renames;
use super::prepare::is_final_order;
use super::publish::events_of;
use super::publish::pending_without_created;
use super::publish::schemas_with_created;
use super::publish::stores_after_transitions;
use super::publish::stores_with_created;
use super::publish::with_final_schemas;
use super::publish::without_index;
use super::publish::ColdMap;
use super::publish::ColumnEventView;
use super::publish::SchemaOwners;
use super::publish::StoreMap;
use super::request::BoundCatalog;
use super::request::CreatedTable;
use super::request::DdlRequest;
use super::request::DroppedTable;
use super::request::PendingIndexDrop;
use super::request::PendingIndexRename;
use super::request::PendingSchemaChange;
use super::request::PendingTable;
use super::request::PendingTableRename;
use super::request::SchemaPhysicalTransition;
use crate::error::Error;
use crate::schema::primary_key_positions;
use crate::schema::ForeignKeyView;
use crate::schema::IndexInfo;
use crate::schema::IndexView;
use crate::schema::Schema;
use crate::schema::SchemaView;
use crate::text::lowercase_text;
use crate::text::same_ignoring_ascii_case;
use crate::view::ViewContent;
use crate::view::ViewDefinition;
use vstd::prelude::*;

verus! {

pub open spec fn creates(request: DdlRequest, table: Seq<char>, i: int) -> bool {
    0 <= i < request.created_tables@.len() && lowercase_text(request.created_tables@[i].name@)
        == table
}

pub open spec fn changes(request: DdlRequest, table: Seq<char>, i: int) -> bool {
    0 <= i < request.schema_changes@.len() && lowercase_text(
        request.schema_changes@[i].table_name@,
    ) == table
}

pub open spec fn drops_index(request: DdlRequest, table: Seq<char>, i: int) -> bool {
    0 <= i < request.index_drops@.len() && lowercase_text(request.index_drops@[i].table_name@)
        == table
}

pub open spec fn renames_index(request: DdlRequest, table: Seq<char>, i: int) -> bool {
    0 <= i < request.index_renames@.len() && lowercase_text(request.index_renames@[i].table_name@)
        == table
}

pub open spec fn moves_table(request: DdlRequest, table: Seq<char>, i: int) -> bool {
    0 <= i < request.table_renames@.len() && (request.table_renames@[i].old_name@ == table
        || request.table_renames@[i].new_name@ == table)
}

pub open spec fn drops_table(request: DdlRequest, table: Seq<char>, i: int) -> bool {
    0 <= i < request.dropped_tables@.len() && request.dropped_tables@[i].name@ == table
}

/// The request neither creates the table nor changes its schema.
pub open spec fn keeps_schema(request: DdlRequest, table: Seq<char>) -> bool {
    &&& forall|i: int| !#[trigger] creates(request, table, i)
    &&& forall|i: int| !#[trigger] changes(request, table, i)
}

/// The request neither renames nor drops the table.
pub open spec fn keeps_place(request: DdlRequest, table: Seq<char>) -> bool {
    &&& forall|i: int| !#[trigger] moves_table(request, table, i)
    &&& forall|i: int| !#[trigger] drops_table(request, table, i)
}

pub open spec fn keeps_index_names(request: DdlRequest, table: Seq<char>) -> bool {
    &&& forall|i: int| !#[trigger] drops_index(request, table, i)
    &&& forall|i: int| !#[trigger] renames_index(request, table, i)
}

/// The request has something to publish.
pub open spec fn has_work(request: DdlRequest) -> bool {
    ||| request.created_tables@.len() > 0
    ||| request.dropped_tables@.len() > 0
    ||| request.index_drops@.len() > 0
    ||| request.index_renames@.len() > 0
    ||| request.table_renames@.len() > 0
    ||| request.schema_changes@.len() > 0
}

proof fn lemma_created_frame(
    stores: StoreMap,
    schemas: Catalog,
    pending: Map<Seq<char>, PendingTable>,
    created: Seq<CreatedTable>,
    i: int,
    table: Seq<char>,
)
    requires
        0 <= i,
        forall|k: int|
            i <= k < created.len() ==> lowercase_text((#[trigger] created[k]).name@) != table,
    ensures
        ({
            let s = stores_with_created(stores, pending, created, i);
            let c = schemas_with_created(schemas, pending, created, i);
            let p = pending_without_created(pending, created, i);
            &&& s.dom().contains(table) == stores.dom().contains(table)
            &&& stores.dom().contains(table) ==> s[table] == stores[table]
            &&& c.dom().contains(table) == schemas.dom().contains(table)
            &&& schemas.dom().contains(table) ==> c[table] == schemas[table]
            &&& p.dom().contains(table) == pending.dom().contains(table)
            &&& pending.dom().contains(table) ==> p[table] == pending[table]
        }),
    decreases created.len() - i,
{
    if i < created.len() {
        let lower = lowercase_text(created[i].name@);
        lemma_created_frame(
            stores.insert(lower, super::publish::created_store(pending[lower])),
            schemas.insert(lower, pending[lower].schema@),
            pending.remove(lower),
            created,
            i + 1,
            table,
        );
    }
}

proof fn lemma_created_once(
    stores: StoreMap,
    schemas: Catalog,
    pending: Map<Seq<char>, PendingTable>,
    created: Seq<CreatedTable>,
    i: int,
    k: int,
    table: Seq<char>,
)
    requires
        0 <= i <= k < created.len(),
        lowercase_text(created[k].name@) == table,
        forall|m: int|
            i <= m < created.len() && m != k ==> lowercase_text((#[trigger] created[m]).name@)
                != table,
        pending.dom().contains(table),
    ensures
        ({
            let s = stores_with_created(stores, pending, created, i);
            let c = schemas_with_created(schemas, pending, created, i);
            let p = pending_without_created(pending, created, i);
            &&& s.dom().contains(table)
            &&& s[table].schema == pending[table].schema@
            &&& s[table].indexes == crate::model::views(pending[table].indexes@)
            &&& c.dom().contains(table)
            &&& c[table] == pending[table].schema@
            &&& !p.dom().contains(table)
        }),
    decreases k - i,
{
    let lower = lowercase_text(created[i].name@);
    let s1 = stores.insert(lower, super::publish::created_store(pending[lower]));
    let c1 = schemas.insert(lower, pending[lower].schema@);
    if i < k {
        lemma_created_once(s1, c1, pending.remove(lower), created, i + 1, k, table);
    } else {
        lemma_created_frame(s1, c1, pending.remove(lower), created, i + 1, table);
    }
}

proof fn lemma_transitions_frame(
    txn_id: i64,
    stores: StoreMap,
    changes: Seq<PendingSchemaChange>,
    outcomes: Seq<Result<Vec<IndexInfo>, String>>,
    i: int,
    table: Seq<char>,
)
    requires
        0 <= i,
        stores.dom().contains(table),
    ensures
        ({
            let s = stores_after_transitions(txn_id, stores, changes, outcomes, i).0;
            &&& s.dom().contains(table)
            &&& s[table].schema == stores[table].schema
            &&& (forall|k: int|
                i <= k < changes.len() ==> lowercase_text((#[trigger] changes[k]).table_name@)
                    != table || changes[k].physical_transition is None) ==> s[table]
                == stores[table]
        }),
    decreases changes.len() - i,
{
    if i < changes.len() && changes[i].physical_transition is Some {
        let lower = lowercase_text(changes[i].table_name@);
        if let Ok(indexes) = super::publish::moved_indexes(outcomes[i]) {
            lemma_transitions_frame(
                txn_id,
                stores.insert(
                    lower,
                    super::request::StoreView { indexes, ..stores[lower] },
                ),
                changes,
                outcomes,
                i + 1,
                table,
            );
        }
    } else if i < changes.len() {
        lemma_transitions_frame(txn_id, stores, changes, outcomes, i + 1, table);
    }
}

proof fn lemma_transitions_dom(
    txn_id: i64,
    stores: StoreMap,
    changes: Seq<PendingSchemaChange>,
    outcomes: Seq<Result<Vec<IndexInfo>, String>>,
    i: int,
    table: Seq<char>,
)
    requires
        0 <= i,
        forall|k: int|
            i <= k < changes.len() ==> lowercase_text((#[trigger] changes[k]).table_name@) != table,
    ensures
        stores_after_transitions(txn_id, stores, changes, outcomes, i).0.dom().contains(table)
            == stores.dom().contains(table),
    decreases changes.len() - i,
{
    if i < changes.len() && changes[i].physical_transition is Some {
        let lower = lowercase_text(changes[i].table_name@);
        if let Ok(indexes) = super::publish::moved_indexes(outcomes[i]) {
            lemma_transitions_dom(
                txn_id,
                stores.insert(
                    lower,
                    super::request::StoreView { indexes, ..stores[lower] },
                ),
                changes,
                outcomes,
                i + 1,
                table,
            );
        }
    } else if i < changes.len() {
        lemma_transitions_dom(txn_id, stores, changes, outcomes, i + 1, table);
    }
}

proof fn lemma_schemas_frame(
    owners: SchemaOwners,
    changes: Seq<PendingSchemaChange>,
    order: Seq<usize>,
    outcomes: Seq<Result<(), Error>>,
    schema_epoch: u64,
    i: int,
    table: Seq<char>,
)
    requires
        0 <= i,
        forall|a: int|
            i <= a < order.len() ==> lowercase_text(
                changes[(#[trigger] order[a]) as int].table_name@,
            ) != table,
    ensures
        ({
            let out = with_final_schemas(owners, changes, order, outcomes, schema_epoch, i).0;
            &&& out.stores.dom().contains(table) == owners.stores.dom().contains(table)
            &&& owners.stores.dom().contains(table) ==> out.stores[table] == owners.stores[table]
            &&& out.schemas.dom().contains(table) == owners.schemas.dom().contains(table)
            &&& owners.schemas.dom().contains(table) ==> out.schemas[table]
                == owners.schemas[table]
            &&& out.cold.dom().contains(table) == owners.cold.dom().contains(table)
            &&& owners.cold.dom().contains(table) ==> out.cold[table] == owners.cold[table]
        }),
    decreases order.len() - i,
{
    if i < order.len() {
        let change = changes[order[i] as int];
        let lower = lowercase_text(change.table_name@);
        let store = owners.stores[lower];
        if super::publish::key_index_failure(store, change.schema@, outcomes[i]) is None {
            lemma_schemas_frame(
                SchemaOwners {
                    schemas: owners.schemas.insert(lower, change.schema@),
                    stores: owners.stores.insert(
                        lower,
                        super::publish::published_store(store, change.schema@),
                    ),
                    cold: super::publish::cold_with_events(
                        owners.cold,
                        changes,
                        lower,
                        schema_epoch,
                    ),
                },
                changes,
                order,
                outcomes,
                schema_epoch,
                i + 1,
                table,
            );
        }
    }
}

/// The index under a name is gone, every other one stays, in its order.
pub open spec fn loses_index(
    before: Seq<IndexView>,
    after: Seq<IndexView>,
    name: Seq<char>,
) -> bool {
    &&& forall|x: IndexView| #[trigger] after.contains(x) <==> before.contains(x) && x.name != name
    &&& (forall|k: int| 0 <= k < before.len() ==> (#[trigger] before[k]).name != name) ==> after
        == before
}

proof fn lemma_without_index(indexes: Seq<IndexView>, name: Seq<char>)
    ensures
        loses_index(indexes, without_index(indexes, name), name),
    decreases indexes.len(),
{
    reveal(Seq::filter);
    let keep = super::publish::other_than(name);
    let after = without_index(indexes, name);
    assert(after == indexes.filter(keep));
    if indexes.len() > 0 {
        let rest = indexes.drop_last();
        lemma_without_index(rest, name);
        let short = without_index(rest, name);
        let last = indexes.last();
        assert(after == if last.name != name {
            short.push(last)
        } else {
            short
        });
        assert forall|x: IndexView| #[trigger] after.contains(x) <==> indexes.contains(x)
            && x.name != name by {
            if after.contains(x) {
                let i = choose|i: int| 0 <= i < after.len() && after[i] == x;
                if i < short.len() {
                    assert(short[i] == x);
                    assert(short.contains(x));
                    let k = choose|k: int| 0 <= k < rest.len() && rest[k] == x;
                    assert(indexes[k] == x);
                } else {
                    assert(indexes[indexes.len() - 1] == x);
                }
            }
            if indexes.contains(x) && x.name != name {
                let k = choose|k: int| 0 <= k < indexes.len() && indexes[k] == x;
                if k < rest.len() {
                    assert(rest[k] == x);
                    assert(short.contains(x));
                    let i = choose|i: int| 0 <= i < short.len() && short[i] == x;
                    assert(after[i] == x);
                } else {
                    assert(after[short.len() as int] == x);
                }
            }
        }
        if forall|k: int| 0 <= k < indexes.len() ==> (#[trigger] indexes[k]).name != name {
            assert forall|k: int| 0 <= k < rest.len() implies (#[trigger] rest[k]).name != name by {
                assert(rest[k] == indexes[k]);
            }
            assert(indexes[indexes.len() - 1].name != name);
            assert(after =~= indexes);
        }
    } else {
        assert(after =~= indexes);
    }
}

proof fn lemma_index_drops_frame(
    stores: StoreMap,
    cold: ColdMap,
    dropped: Seq<DroppedTable>,
    drops: Seq<PendingIndexDrop>,
    i: int,
    table: Seq<char>,
)
    requires
        0 <= i,
        forall|k: int|
            i <= k < drops.len() ==> lowercase_text((#[trigger] drops[k]).table_name@) != table,
    ensures
        ({
            let s = stores_without_indexes(stores, dropped, drops, i);
            let c = cold_without_indexes(cold, dropped, drops, i);
            &&& s.dom().contains(table) == stores.dom().contains(table)
            &&& stores.dom().contains(table) ==> s[table] == stores[table]
            &&& c.dom().contains(table) == cold.dom().contains(table)
            &&& cold.dom().contains(table) ==> c[table] == cold[table]
        }),
    decreases drops.len() - i,
{
    if i < drops.len() {
        let lower = lowercase_text(drops[i].table_name@);
        let alone = super::install::drops_alone(dropped, drops[i]);
        let s1 = if alone {
            stores.insert(
                lower,
                super::request::StoreView {
                    indexes: without_index(stores[lower].indexes, drops[i].index_name@),
                    ..stores[lower]
                },
            )
        } else {
            stores
        };
        let c1 = if alone && cold.dom().contains(lower) {
            cold.insert(
                lower,
                super::publish::ColdView {
                    populated: cold[lower].populated.remove(drops[i].index_name@),
                    ..cold[lower]
                },
            )
        } else {
            cold
        };
        lemma_index_drops_frame(s1, c1, dropped, drops, i + 1, table);
    }
}

proof fn lemma_index_drop_once(
    stores: StoreMap,
    cold: ColdMap,
    dropped: Seq<DroppedTable>,
    drops: Seq<PendingIndexDrop>,
    i: int,
    k: int,
    table: Seq<char>,
)
    requires
        0 <= i <= k < drops.len(),
        stores.dom().contains(table),
        lowercase_text(drops[k].table_name@) == table,
        forall|m: int|
            i <= m < drops.len() && m != k ==> lowercase_text((#[trigger] drops[m]).table_name@)
                != table,
        super::install::drops_alone(dropped, drops[k]),
    ensures
        ({
            let s = stores_without_indexes(stores, dropped, drops, i);
            let c = cold_without_indexes(cold, dropped, drops, i);
            &&& s.dom().contains(table)
            &&& s[table].schema == stores[table].schema
            &&& loses_index(stores[table].indexes, s[table].indexes, drops[k].index_name@)
            &&& c.dom().contains(table) == cold.dom().contains(table)
            &&& cold.dom().contains(table) ==> c[table].populated == cold[table].populated.remove(
                drops[k].index_name@,
            ) && c[table].has_segments == cold[table].has_segments && c[table].events
                == cold[table].events
        }),
    decreases k - i,
{
    let lower = lowercase_text(drops[i].table_name@);
    let alone = super::install::drops_alone(dropped, drops[i]);
    let s1 = if alone {
        stores.insert(
            lower,
            super::request::StoreView {
                indexes: without_index(stores[lower].indexes, drops[i].index_name@),
                ..stores[lower]
            },
        )
    } else {
        stores
    };
    let c1 = if alone && cold.dom().contains(lower) {
        cold.insert(
            lower,
            super::publish::ColdView {
                populated: cold[lower].populated.remove(drops[i].index_name@),
                ..cold[lower]
            },
        )
    } else {
        cold
    };
    if i < k {
        lemma_index_drop_once(s1, c1, dropped, drops, i + 1, k, table);
    } else {
        lemma_without_index(stores[table].indexes, drops[k].index_name@);
        lemma_index_drops_frame(s1, c1, dropped, drops, i + 1, table);
    }
}

proof fn lemma_index_renames_frame(
    txn_id: i64,
    stores: StoreMap,
    cold: ColdMap,
    renames: Seq<PendingIndexRename>,
    outcomes: Seq<Result<(), String>>,
    i: int,
    table: Seq<char>,
)
    requires
        0 <= i,
        forall|k: int|
            i <= k < renames.len() ==> lowercase_text((#[trigger] renames[k]).table_name@) != table,
    ensures
        ({
            let (s, c, _) = with_index_renames(txn_id, stores, cold, renames, outcomes, i);
            &&& s.dom().contains(table) == stores.dom().contains(table)
            &&& stores.dom().contains(table) ==> s[table] == stores[table]
            &&& c.dom().contains(table) == cold.dom().contains(table)
            &&& cold.dom().contains(table) ==> c[table] == cold[table]
        }),
    decreases renames.len() - i,
{
    if i < renames.len() && outcomes[i] is Ok {
        let (s1, c1) = renamed_step(stores, cold, renames[i]);
        lemma_index_renames_frame(txn_id, s1, c1, renames, outcomes, i + 1, table);
    }
}

spec fn renamed_step(stores: StoreMap, cold: ColdMap, rename: PendingIndexRename) -> (
    StoreMap,
    ColdMap,
) {
    let lower = lowercase_text(rename.table_name@);
    (
        stores.insert(
            lower,
            super::request::StoreView {
                indexes: stores[lower].indexes.map_values(
                    super::install::renaming_index(
                        rename.old_index_name@,
                        rename.new_index_name@,
                    ),
                ),
                ..stores[lower]
            },
        ),
        if cold.dom().contains(lower) {
            cold.insert(
                lower,
                super::publish::ColdView {
                    populated: super::install::renamed_populated(
                        cold[lower].populated,
                        rename.old_index_name@,
                        rename.new_index_name@,
                    ),
                    ..cold[lower]
                },
            )
        } else {
            cold
        },
    )
}

/// Each index that had the old name has the new one and is otherwise as it
/// was; every other index is unchanged, and each stands where it stood.
pub open spec fn has_renamed_index(
    before: Seq<IndexView>,
    after: Seq<IndexView>,
    old_name: Seq<char>,
    new_name: Seq<char>,
) -> bool {
    &&& after.len() == before.len()
    &&& forall|k: int|
        0 <= k < before.len() ==> {
            let b = before[k];
            let a = #[trigger] after[k];
            &&& a.index_type == b.index_type
            &&& a.is_unique == b.is_unique
            &&& a.column_ids == b.column_ids
            &&& a.predicate_columns == b.predicate_columns
            &&& b.name == old_name ==> a.name == new_name
            &&& b.name != old_name ==> a.name == b.name
        }
}

proof fn lemma_index_rename_once(
    txn_id: i64,
    stores: StoreMap,
    cold: ColdMap,
    renames: Seq<PendingIndexRename>,
    outcomes: Seq<Result<(), String>>,
    i: int,
    k: int,
    table: Seq<char>,
)
    requires
        0 <= i <= k < renames.len(),
        stores.dom().contains(table),
        lowercase_text(renames[k].table_name@) == table,
        forall|m: int|
            i <= m < renames.len() && m != k ==> lowercase_text((#[trigger] renames[m]).table_name@)
                != table,
        with_index_renames(txn_id, stores, cold, renames, outcomes, i).2 is None,
    ensures
        ({
            let (s, c, _) = with_index_renames(txn_id, stores, cold, renames, outcomes, i);
            &&& s.dom().contains(table)
            &&& s[table].schema == stores[table].schema
            &&& has_renamed_index(
                stores[table].indexes,
                s[table].indexes,
                renames[k].old_index_name@,
                renames[k].new_index_name@,
            )
            &&& c.dom().contains(table) == cold.dom().contains(table)
            &&& cold.dom().contains(table) ==> {
                let was = cold[table].populated;
                let now = c[table].populated;
                let old_name = renames[k].old_index_name@;
                let new_name = renames[k].new_index_name@;
                &&& was.contains(old_name) ==> now.contains(new_name)
                &&& was.contains(old_name) && old_name != new_name ==> !now.contains(old_name)
                &&& !was.contains(old_name) ==> now == was
                &&& forall|n: Seq<char>|
                    n != old_name && n != new_name ==> #[trigger] now.contains(n) == was.contains(n)
            }
        }),
    decreases k - i,
{
    let (s1, c1) = renamed_step(stores, cold, renames[i]);
    if i < k {
        lemma_index_rename_once(txn_id, s1, c1, renames, outcomes, i + 1, k, table);
    } else {
        lemma_index_renames_frame(txn_id, s1, c1, renames, outcomes, i + 1, table);
    }
}

proof fn lemma_moves_frame(
    schemas: Catalog,
    stores: StoreMap,
    cold: ColdMap,
    renames: Seq<PendingTableRename>,
    i: int,
    table: Seq<char>,
)
    requires
        0 <= i,
        forall|k: int|
            i <= k < renames.len() ==> (#[trigger] renames[k]).old_name@ != table
                && renames[k].new_name@ != table,
    ensures
        ({
            let a = schemas_after_renames(schemas, renames, i);
            let s = stores_after_renames(stores, renames, i);
            let c = cold_after_renames(cold, renames, i);
            &&& a.dom().contains(table) == schemas.dom().contains(table)
            &&& schemas.dom().contains(table) ==> a[table] == schemas[table]
            &&& s.dom().contains(table) == stores.dom().contains(table)
            &&& stores.dom().contains(table) ==> s[table] == stores[table]
            &&& c.dom().contains(table) == cold.dom().contains(table)
            &&& cold.dom().contains(table) ==> c[table] == cold[table]
        }),
    decreases renames.len() - i,
{
    if i < renames.len() {
        let old_name = renames[i].old_name@;
        let new_name = renames[i].new_name@;
        lemma_moves_frame(
            schemas.remove(old_name).insert(
                new_name,
                super::final_catalog::renamed_schema(schemas[old_name], new_name),
            ),
            stores.remove(old_name).insert(
                new_name,
                super::request::StoreView {
                    schema: super::final_catalog::renamed_schema(
                        stores[old_name].schema,
                        new_name,
                    ),
                    ..stores[old_name]
                },
            ),
            if cold.dom().contains(old_name) {
                cold.remove(old_name).insert(new_name, cold[old_name])
            } else {
                cold
            },
            renames,
            i + 1,
            table,
        );
    }
}

/// A schema under another name.
pub open spec fn is_same_but_named(
    before: SchemaView,
    after: SchemaView,
    name: Seq<char>,
) -> bool {
    &&& after.table_name == name
    &&& after.table_name_lower == lowercase_text(name)
    &&& after.catalog_id == before.catalog_id
    &&& after.columns == before.columns
    &&& after.foreign_keys == before.foreign_keys
    &&& after.table_checks == before.table_checks
    &&& after.constraints == before.constraints
}

proof fn lemma_moved_once(
    schemas: Catalog,
    stores: StoreMap,
    cold: ColdMap,
    renames: Seq<PendingTableRename>,
    i: int,
    k: int,
)
    requires
        0 <= i <= k < renames.len(),
        renames[k].old_name@ != renames[k].new_name@,
        schemas.dom().contains(renames[k].old_name@),
        stores.dom().contains(renames[k].old_name@),
        forall|m: int|
            i <= m < renames.len() && m != k ==> {
                &&& (#[trigger] renames[m]).old_name@ != renames[k].old_name@
                &&& renames[m].new_name@ != renames[k].old_name@
                &&& renames[m].old_name@ != renames[k].new_name@
                &&& renames[m].new_name@ != renames[k].new_name@
            },
    ensures
        ({
            let old_name = renames[k].old_name@;
            let new_name = renames[k].new_name@;
            let a = schemas_after_renames(schemas, renames, i);
            let s = stores_after_renames(stores, renames, i);
            let c = cold_after_renames(cold, renames, i);
            &&& !a.dom().contains(old_name)
            &&& a.dom().contains(new_name)
            &&& is_same_but_named(schemas[old_name], a[new_name], new_name)
            &&& !s.dom().contains(old_name)
            &&& s.dom().contains(new_name)
            &&& s[new_name].indexes == stores[old_name].indexes
            &&& is_same_but_named(stores[old_name].schema, s[new_name].schema, new_name)
            &&& !c.dom().contains(old_name)
            &&& cold.dom().contains(old_name) ==> c.dom().contains(new_name) && c[new_name]
                == cold[old_name]
        }),
    decreases k - i,
{
    let old_name = renames[i].old_name@;
    let new_name = renames[i].new_name@;
    let a1 = schemas.remove(old_name).insert(
        new_name,
        super::final_catalog::renamed_schema(schemas[old_name], new_name),
    );
    let s1 = stores.remove(old_name).insert(
        new_name,
        super::request::StoreView {
            schema: super::final_catalog::renamed_schema(stores[old_name].schema, new_name),
            ..stores[old_name]
        },
    );
    let c1 = if cold.dom().contains(old_name) {
        cold.remove(old_name).insert(new_name, cold[old_name])
    } else {
        cold
    };
    if i < k {
        lemma_moved_once(a1, s1, c1, renames, i + 1, k);
    } else {
        lemma_moves_frame(a1, s1, c1, renames, i + 1, old_name);
        lemma_moves_frame(a1, s1, c1, renames, i + 1, new_name);
    }
}

proof fn lemma_drops_frame(
    schemas: Catalog,
    stores: StoreMap,
    cold: ColdMap,
    dropped: Seq<DroppedTable>,
    i: int,
    table: Seq<char>,
)
    requires
        0 <= i,
        forall|k: int| i <= k < dropped.len() ==> (#[trigger] dropped[k]).name@ != table,
    ensures
        ({
            let a = schemas_after_drops(schemas, dropped, i);
            let s = stores_after_drops(stores, schemas, dropped, i);
            let c = cold_after_drops(cold, dropped, i);
            &&& a.dom().contains(table) == schemas.dom().contains(table)
            &&& s.dom().contains(table) == stores.dom().contains(table)
            &&& stores.dom().contains(table) ==> s[table].indexes == stores[table].indexes
            &&& c.dom().contains(table) == cold.dom().contains(table)
            &&& cold.dom().contains(table) ==> c[table] == cold[table]
            &&& schemas.dom().contains(table) ==> a[table].columns == schemas[table].columns
                && a[table].table_name == schemas[table].table_name
        }),
    decreases dropped.len() - i,
{
    if i < dropped.len() {
        let name = dropped[i].name@;
        lemma_drops_frame(
            stripped_catalog(schemas.remove(name), name),
            stripped_stores(stores, schemas.remove(name), name).remove(name),
            cold.remove(name),
            dropped,
            i + 1,
            table,
        );
    }
}

proof fn lemma_drops_are_gone(
    schemas: Catalog,
    stores: StoreMap,
    cold: ColdMap,
    dropped: Seq<DroppedTable>,
    i: int,
    table: Seq<char>,
)
    requires
        0 <= i,
        (!schemas.dom().contains(table) && !stores.dom().contains(table) && !cold.dom().contains(
            table,
        )) || exists|k: int| i <= k < dropped.len() && (#[trigger] dropped[k]).name@ == table,
    ensures
        !schemas_after_drops(schemas, dropped, i).dom().contains(table),
        !stores_after_drops(stores, schemas, dropped, i).dom().contains(table),
        !cold_after_drops(cold, dropped, i).dom().contains(table),
    decreases dropped.len() - i,
{
    if i < dropped.len() {
        let name = dropped[i].name@;
        if name != table && !(!schemas.dom().contains(table) && !stores.dom().contains(table)
            && !cold.dom().contains(table)) {
            let k = choose|k: int| i <= k < dropped.len() && (#[trigger] dropped[k]).name@ == table;
            assert(i + 1 <= k);
        }
        lemma_drops_are_gone(
            stripped_catalog(schemas.remove(name), name),
            stripped_stores(stores, schemas.remove(name), name).remove(name),
            cold.remove(name),
            dropped,
            i + 1,
            table,
        );
    }
}

proof fn lemma_filter_members<A>(s: Seq<A>, keep: spec_fn(A) -> bool)
    ensures
        forall|x: A| #[trigger] s.filter(keep).contains(x) <==> s.contains(x) && keep(x),
    decreases s.len(),
{
    reveal(Seq::filter);
    if s.len() > 0 {
        lemma_filter_members(s.drop_last(), keep);
        let rest = s.drop_last();
        let short = rest.filter(keep);
        let all = s.filter(keep);
        assert(all == if keep(s.last()) {
            short.push(s.last())
        } else {
            short
        });
        assert forall|x: A| #[trigger] all.contains(x) <==> s.contains(x) && keep(x) by {
            if all.contains(x) {
                let i = choose|i: int| 0 <= i < all.len() && all[i] == x;
                if i < short.len() {
                    assert(short[i] == x);
                    assert(short.contains(x));
                    let k = choose|k: int| 0 <= k < rest.len() && rest[k] == x;
                    assert(s[k] == x);
                } else {
                    assert(s[s.len() - 1] == x);
                }
            }
            if s.contains(x) && keep(x) {
                let k = choose|k: int| 0 <= k < s.len() && s[k] == x;
                if k < rest.len() {
                    assert(rest[k] == x);
                    assert(short.contains(x));
                    let i = choose|i: int| 0 <= i < short.len() && short[i] == x;
                    assert(all[i] == x);
                } else {
                    assert(all[short.len() as int] == x);
                }
            }
        }
    }
}

/// A table's foreign keys to a parent.
pub open spec fn refers(schema: SchemaView, parent: Seq<char>) -> bool {
    exists|k: int|
        0 <= k < schema.foreign_keys.len() && (#[trigger] schema.foreign_keys[k]).referenced_table
            == parent
}

proof fn lemma_stripped(schema: SchemaView, parent: Seq<char>, other: Seq<char>)
    ensures
        !refers(crate::schema::stripped_schema(schema, parent), parent),
        !refers(schema, other) ==> !refers(
            crate::schema::stripped_schema(schema, parent),
            other,
        ),
        forall|fk: ForeignKeyView|
            fk.referenced_table != parent ==> (#[trigger] crate::schema::stripped_schema(
                schema,
                parent,
            ).foreign_keys.contains(fk) == schema.foreign_keys.contains(fk)),
{
    let keep = |fk: ForeignKeyView| fk.referenced_table != parent;
    let after = crate::schema::stripped_schema(schema, parent);
    lemma_filter_members(schema.foreign_keys, keep);
    if refers(schema, parent) {
        assert(after.foreign_keys == schema.foreign_keys.filter(keep));
        assert forall|k: int| 0 <= k < after.foreign_keys.len() implies schema.foreign_keys.contains(
            #[trigger] after.foreign_keys[k],
        ) && after.foreign_keys[k].referenced_table != parent by {
            assert(after.foreign_keys.contains(after.foreign_keys[k]));
        }
        if refers(after, other) {
            let k = choose|k: int|
                0 <= k < after.foreign_keys.len()
                    && (#[trigger] after.foreign_keys[k]).referenced_table == other;
            let fk = after.foreign_keys[k];
            let m = choose|m: int|
                0 <= m < schema.foreign_keys.len() && schema.foreign_keys[m] == fk;
            assert(schema.foreign_keys[m].referenced_table == other);
        }
    } else {
        assert(after == schema);
    }
}

proof fn lemma_no_reference_left(
    schemas: Catalog,
    dropped: Seq<DroppedTable>,
    i: int,
    parent: Seq<char>,
    table: Seq<char>,
)
    requires
        0 <= i,
        schemas_after_drops(schemas, dropped, i).dom().contains(table),
        (schemas.dom().contains(table) && !refers(schemas[table], parent)) || exists|k: int|
            i <= k < dropped.len() && (#[trigger] dropped[k]).name@ == parent,
    ensures
        !refers(schemas_after_drops(schemas, dropped, i)[table], parent),
    decreases dropped.len() - i,
{
    if i < dropped.len() {
        let name = dropped[i].name@;
        let next = stripped_catalog(schemas.remove(name), name);
        if schemas.dom().contains(table) {
            lemma_stripped(schemas[table], name, parent);
        }
        if !next.dom().contains(table) {
            lemma_absent_stays_absent(next, dropped, i + 1, table);
        }
        if name != parent && !(schemas.dom().contains(table) && !refers(schemas[table], parent)) {
            let k = choose|k: int| i <= k < dropped.len() && (#[trigger] dropped[k]).name@ == parent;
            assert(i + 1 <= k);
        }
        lemma_no_reference_left(next, dropped, i + 1, parent, table);
    }
}

proof fn lemma_absent_stays_absent(
    schemas: Catalog,
    dropped: Seq<DroppedTable>,
    i: int,
    table: Seq<char>,
)
    requires
        0 <= i,
        !schemas.dom().contains(table),
    ensures
        !schemas_after_drops(schemas, dropped, i).dom().contains(table),
    decreases dropped.len() - i,
{
    if i < dropped.len() {
        let name = dropped[i].name@;
        lemma_absent_stays_absent(
            stripped_catalog(schemas.remove(name), name),
            dropped,
            i + 1,
            table,
        );
    }
}

proof fn lemma_bound_frame(
    stores: StoreMap,
    schemas: Catalog,
    bound: Seq<Schema>,
    i: int,
    table: Seq<char>,
)
    requires
        0 <= i,
    ensures
        ({
            let s = with_bound_schemas(stores, schemas, bound, i).0;
            &&& s.dom() == stores.dom()
            &&& stores.dom().contains(table) ==> s[table].indexes == stores[table].indexes
        }),
    decreases bound.len() - i,
{
    if i < bound.len() {
        let lower = bound[i].table_name_lower@;
        if stores.dom().contains(lower) {
            let next = stores.insert(
                lower,
                super::request::StoreView { schema: bound[i]@, ..stores[lower] },
            );
            lemma_bound_frame(next, schemas.insert(lower, bound[i]@), bound, i + 1, table);
            assert(next.dom() =~= stores.dom());
        }
    }
}

proof fn lemma_bound_schemas(
    stores: StoreMap,
    schemas: Catalog,
    bound: Seq<Schema>,
    i: int,
    table: Seq<char>,
)
    requires
        0 <= i,
        with_bound_schemas(stores, schemas, bound, i).2 is None,
    ensures
        ({
            let (s, a, _) = with_bound_schemas(stores, schemas, bound, i);
            &&& a.dom().contains(table) <==> schemas.dom().contains(table) || exists|k: int|
                i <= k < bound.len() && (#[trigger] bound[k]).table_name_lower@ == table
            &&& forall|k: int|
                i <= k < bound.len() && (#[trigger] bound[k]).table_name_lower@ == table && (forall|
                    m: int,
                |
                    k < m < bound.len() ==> (#[trigger] bound[m]).table_name_lower@ != table)
                    ==> a[table] == bound[k]@ && s[table].schema == bound[k]@
            &&& (forall|k: int|
                i <= k < bound.len() ==> (#[trigger] bound[k]).table_name_lower@ != table)
                && schemas.dom().contains(table) ==> a[table] == schemas[table]
            &&& (forall|k: int|
                i <= k < bound.len() ==> (#[trigger] bound[k]).table_name_lower@ != table)
                && stores.dom().contains(table) ==> s[table] == stores[table]
        }),
    decreases bound.len() - i,
{
    if i < bound.len() {
        let lower = bound[i].table_name_lower@;
        lemma_bound_schemas(
            stores.insert(
                lower,
                super::request::StoreView { schema: bound[i]@, ..stores[lower] },
            ),
            schemas.insert(lower, bound[i]@),
            bound,
            i + 1,
            table,
        );
        if lower == table {
            assert(bound[i].table_name_lower@ == table);
        }
    }
}

proof fn lemma_bound_views(
    held: Map<Seq<char>, ViewContent>,
    bound: Seq<ViewDefinition>,
    i: int,
    name: Seq<char>,
)
    requires
        0 <= i,
        with_bound_views(held, bound, i) is Ok,
    ensures
        ({
            let out = with_bound_views(held, bound, i)->Ok_0;
            &&& out.dom().contains(name) <==> held.dom().contains(name) || exists|k: int|
                i <= k < bound.len() && (#[trigger] bound[k]).name@ == name
            &&& forall|k: int|
                i <= k < bound.len() && (#[trigger] bound[k]).name@ == name ==> out[name]
                    == bound[k]@
            &&& held.dom().contains(name) ==> out[name] == held[name]
        }),
    decreases bound.len() - i,
{
    if i < bound.len() {
        lemma_bound_views(held.insert(bound[i].name@, bound[i]@), bound, i + 1, name);
        if bound[i].name@ == name {
            assert(bound[i].name@ == name);
        }
    }
}

/// What one table is, in the middle and at the end of a publication.
pub struct TableFate {
    /// Its store before indexes move.
    pub shaped: StoreMap,
    pub shaped_cold: ColdMap,
    /// Its store before tables move.
    pub indexed: StoreMap,
    pub indexed_cold: ColdMap,
}

/// The stages between the schemas and the moves of tables.
spec fn stages(
    before: RuntimeContents,
    request: DdlRequest,
    order: Seq<usize>,
    outcomes: PublishOutcomes,
) -> TableFate {
    let changed = super::commit::after_schemas(before, request, order, outcomes).0;
    let (stores, cold, _) = with_index_renames(
        request.txn_id,
        stores_without_indexes(changed.stores, request.dropped_tables@, request.index_drops@, 0),
        cold_without_indexes(changed.cold, request.dropped_tables@, request.index_drops@, 0),
        request.index_renames@,
        outcomes.index_renames@,
        0,
    );
    TableFate {
        shaped: changed.stores,
        shaped_cold: changed.cold,
        indexed: stores,
        indexed_cold: cold,
    }
}

/// A table whose schema the request leaves alone is as it was when indexes
/// start to move.
proof fn lemma_shaped(
    before: RuntimeContents,
    request: DdlRequest,
    order: Seq<usize>,
    outcomes: PublishOutcomes,
    table: Seq<char>,
)
    requires
        keeps_schema(request, table),
        forall|a: int|
            0 <= a < order.len() ==> (#[trigger] order[a]) < request.schema_changes@.len(),
    ensures
        ({
            let changed = super::commit::after_schemas(before, request, order, outcomes).0;
            &&& changed.stores.dom().contains(table) == before.stores.dom().contains(table)
            &&& before.stores.dom().contains(table) ==> changed.stores[table]
                == before.stores[table]
            &&& changed.schemas.dom().contains(table) == before.schemas.dom().contains(table)
            &&& before.schemas.dom().contains(table) ==> changed.schemas[table]
                == before.schemas[table]
            &&& changed.cold.dom().contains(table) == before.cold.dom().contains(table)
            &&& before.cold.dom().contains(table) ==> changed.cold[table] == before.cold[table]
        }),
{
    assert forall|k: int| 0 <= k < request.created_tables@.len() implies lowercase_text(
        (#[trigger] request.created_tables@[k]).name@,
    ) != table by {
        assert(!creates(request, table, k));
    }
    assert forall|k: int| 0 <= k < request.schema_changes@.len() implies lowercase_text(
        (#[trigger] request.schema_changes@[k]).table_name@,
    ) != table by {
        assert(!changes(request, table, k));
    }
    let s1 = stores_with_created(before.stores, before.pending, request.created_tables@, 0);
    let a1 = schemas_with_created(before.schemas, before.pending, request.created_tables@, 0);
    lemma_created_frame(
        before.stores,
        before.schemas,
        before.pending,
        request.created_tables@,
        0,
        table,
    );
    let (s2, fault) = stores_after_transitions(
        request.txn_id,
        s1,
        request.schema_changes@,
        outcomes.transitions@,
        0,
    );
    lemma_transitions_dom(
        request.txn_id,
        s1,
        request.schema_changes@,
        outcomes.transitions@,
        0,
        table,
    );
    if s1.dom().contains(table) {
        lemma_transitions_frame(
            request.txn_id,
            s1,
            request.schema_changes@,
            outcomes.transitions@,
            0,
            table,
        );
    }
    lemma_schemas_frame(
        SchemaOwners { schemas: a1, stores: s2, cold: before.cold },
        request.schema_changes@,
        order,
        outcomes.key_indexes@,
        before.schema_epoch,
        0,
        table,
    );
}

/// A table whose place the request leaves alone ends with the indexes and the
/// cold owner that it had before tables moved.
proof fn lemma_placed(
    before: RuntimeContents,
    request: DdlRequest,
    order: Seq<usize>,
    prepared: Option<BoundCatalog>,
    outcomes: PublishOutcomes,
    table: Seq<char>,
)
    requires
        keeps_place(request, table),
        has_work(request),
        published_ddl(before, request, order, prepared, outcomes).1 is None,
    ensures
        ({
            let after = published_ddl(before, request, order, prepared, outcomes).0;
            let fate = stages(before, request, order, outcomes);
            &&& after.stores.dom().contains(table) == fate.indexed.dom().contains(table)
            &&& fate.indexed.dom().contains(table) ==> after.stores[table].indexes
                == fate.indexed[table].indexes
            &&& after.cold.dom().contains(table) == fate.indexed_cold.dom().contains(table)
            &&& fate.indexed_cold.dom().contains(table) ==> after.cold[table]
                == fate.indexed_cold[table]
        }),
{
    assert forall|k: int| 0 <= k < request.table_renames@.len() implies (
    #[trigger] request.table_renames@[k]).old_name@ != table
        && request.table_renames@[k].new_name@ != table by {
        assert(!moves_table(request, table, k));
    }
    assert forall|k: int| 0 <= k < request.dropped_tables@.len() implies (
    #[trigger] request.dropped_tables@[k]).name@ != table by {
        assert(!drops_table(request, table, k));
    }
    let changed = super::commit::after_schemas(before, request, order, outcomes).0;
    let fate = stages(before, request, order, outcomes);
    lemma_moves_frame(
        changed.schemas,
        fate.indexed,
        fate.indexed_cold,
        request.table_renames@,
        0,
        table,
    );
    lemma_drops_frame(
        schemas_after_renames(changed.schemas, request.table_renames@, 0),
        stores_after_renames(fate.indexed, request.table_renames@, 0),
        cold_after_renames(fate.indexed_cold, request.table_renames@, 0),
        request.dropped_tables@,
        0,
        table,
    );
    lemma_installed(before, request, order, prepared, outcomes, table);
}

/// The typed catalog takes no store away and no index.
proof fn lemma_installed(
    before: RuntimeContents,
    request: DdlRequest,
    order: Seq<usize>,
    prepared: Option<BoundCatalog>,
    outcomes: PublishOutcomes,
    table: Seq<char>,
)
    requires
        has_work(request),
        published_ddl(before, request, order, prepared, outcomes).1 is None,
    ensures
        ({
            let after = published_ddl(before, request, order, prepared, outcomes).0;
            let changed = super::commit::after_schemas(before, request, order, outcomes).0;
            let moved = super::commit::after_moves(changed, request, outcomes).0;
            &&& after.stores.dom() == moved.stores.dom()
            &&& moved.stores.dom().contains(table) ==> after.stores[table].indexes
                == moved.stores[table].indexes
            &&& after.cold == moved.cold
            &&& after.pending == moved.pending
            &&& !request.has_catalog_mutation ==> after == moved
        }),
{
    let changed = super::commit::after_schemas(before, request, order, outcomes).0;
    let moved = super::commit::after_moves(changed, request, outcomes).0;
    if let Some(bound) = prepared {
        lemma_bound_frame(moved.stores, Map::empty(), bound.schemas@, 0, table);
    }
}

/// A request without work publishes nothing.
pub proof fn law_request_without_work_changes_nothing(
    before: RuntimeContents,
    request: DdlRequest,
    order: Seq<usize>,
    prepared: Option<BoundCatalog>,
    outcomes: PublishOutcomes,
)
    requires
        !has_work(request),
        !request.has_catalog_mutation,
        request.indexes@.len() == 0,
    ensures
        published_ddl(before, request, order, prepared, outcomes) == (before, None::<
            crate::error::ErrorView,
        >),
{
}

/// A renamed index is there under its new name, of the kind, the columns and
/// the uniqueness it had, and not under the old one; what covers cold rows is
/// known under the new name. Every other index of the table is unchanged.
pub proof fn law_renamed_index_has_its_new_name(
    before: RuntimeContents,
    request: DdlRequest,
    order: Seq<usize>,
    prepared: Option<BoundCatalog>,
    outcomes: PublishOutcomes,
    k: int,
)
    requires
        0 <= k < request.index_renames@.len(),
        forall|a: int|
            0 <= a < order.len() ==> (#[trigger] order[a]) < request.schema_changes@.len(),
        ({
            let table = lowercase_text(request.index_renames@[k].table_name@);
            &&& before.stores.dom().contains(table)
            &&& keeps_schema(request, table)
            &&& keeps_place(request, table)
            &&& forall|i: int| !#[trigger] drops_index(request, table, i)
            &&& forall|i: int| i != k ==> !#[trigger] renames_index(request, table, i)
        }),
        published_ddl(before, request, order, prepared, outcomes).1 is None,
    ensures
        ({
            let after = published_ddl(before, request, order, prepared, outcomes).0;
            let rename = request.index_renames@[k];
            let table = lowercase_text(rename.table_name@);
            &&& after.stores.dom().contains(table)
            &&& has_renamed_index(
                before.stores[table].indexes,
                after.stores[table].indexes,
                rename.old_index_name@,
                rename.new_index_name@,
            )
            &&& before.cold.dom().contains(table) ==> after.cold.dom().contains(table) && {
                let was = before.cold[table].populated;
                let now = after.cold[table].populated;
                &&& was.contains(rename.old_index_name@) ==> now.contains(rename.new_index_name@)
                &&& was.contains(rename.old_index_name@) && rename.old_index_name@
                    != rename.new_index_name@ ==> !now.contains(rename.old_index_name@)
                &&& !was.contains(rename.old_index_name@) ==> now == was
                &&& forall|n: Seq<char>|
                    n != rename.old_index_name@ && n != rename.new_index_name@
                        ==> #[trigger] now.contains(n) == was.contains(n)
            }
        }),
{
    let rename = request.index_renames@[k];
    let table = lowercase_text(rename.table_name@);
    lemma_shaped(before, request, order, outcomes, table);
    lemma_placed(before, request, order, prepared, outcomes, table);
    let fate = stages(before, request, order, outcomes);
    assert forall|i: int| 0 <= i < request.index_drops@.len() implies lowercase_text(
        (#[trigger] request.index_drops@[i]).table_name@,
    ) != table by {
        assert(!drops_index(request, table, i));
    }
    assert forall|i: int| 0 <= i < request.index_renames@.len() && i != k implies lowercase_text(
        (#[trigger] request.index_renames@[i]).table_name@,
    ) != table by {
        assert(!renames_index(request, table, i));
    }
    lemma_index_drops_frame(
        fate.shaped,
        fate.shaped_cold,
        request.dropped_tables@,
        request.index_drops@,
        0,
        table,
    );
    lemma_index_rename_once(
        request.txn_id,
        stores_without_indexes(fate.shaped, request.dropped_tables@, request.index_drops@, 0),
        cold_without_indexes(fate.shaped_cold, request.dropped_tables@, request.index_drops@, 0),
        request.index_renames@,
        outcomes.index_renames@,
        0,
        k,
        table,
    );
}

/// A dropped index is gone from its table, and from what covers cold rows;
/// every other index of the table stays.
pub proof fn law_dropped_index_is_gone(
    before: RuntimeContents,
    request: DdlRequest,
    order: Seq<usize>,
    prepared: Option<BoundCatalog>,
    outcomes: PublishOutcomes,
    k: int,
)
    requires
        0 <= k < request.index_drops@.len(),
        !request.index_drops@[k].schema_owned,
        forall|a: int|
            0 <= a < order.len() ==> (#[trigger] order[a]) < request.schema_changes@.len(),
        request.dropped_tables@.len() == 0,
        ({
            let table = lowercase_text(request.index_drops@[k].table_name@);
            &&& before.stores.dom().contains(table)
            &&& keeps_schema(request, table)
            &&& keeps_place(request, table)
            &&& forall|i: int| i != k ==> !#[trigger] drops_index(request, table, i)
            &&& forall|i: int| !#[trigger] renames_index(request, table, i)
        }),
        published_ddl(before, request, order, prepared, outcomes).1 is None,
    ensures
        ({
            let after = published_ddl(before, request, order, prepared, outcomes).0;
            let drop = request.index_drops@[k];
            let table = lowercase_text(drop.table_name@);
            &&& after.stores.dom().contains(table)
            &&& loses_index(
                before.stores[table].indexes,
                after.stores[table].indexes,
                drop.index_name@,
            )
            &&& before.cold.dom().contains(table) ==> after.cold.dom().contains(table) && forall|
                n: Seq<char>,
            | #[trigger]
                after.cold[table].populated.contains(n) <==> before.cold[table].populated.contains(
                    n,
                ) && n != drop.index_name@
        }),
{
    let drop = request.index_drops@[k];
    let table = lowercase_text(drop.table_name@);
    lemma_shaped(before, request, order, outcomes, table);
    lemma_placed(before, request, order, prepared, outcomes, table);
    let fate = stages(before, request, order, outcomes);
    assert forall|i: int| 0 <= i < request.index_drops@.len() && i != k implies lowercase_text(
        (#[trigger] request.index_drops@[i]).table_name@,
    ) != table by {
        assert(!drops_index(request, table, i));
    }
    assert forall|i: int| 0 <= i < request.index_renames@.len() implies lowercase_text(
        (#[trigger] request.index_renames@[i]).table_name@,
    ) != table by {
        assert(!renames_index(request, table, i));
    }
    lemma_index_drop_once(
        fate.shaped,
        fate.shaped_cold,
        request.dropped_tables@,
        request.index_drops@,
        0,
        k,
        table,
    );
    lemma_index_renames_frame(
        request.txn_id,
        stores_without_indexes(fate.shaped, request.dropped_tables@, request.index_drops@, 0),
        cold_without_indexes(fate.shaped_cold, request.dropped_tables@, request.index_drops@, 0),
        request.index_renames@,
        outcomes.index_renames@,
        0,
        table,
    );
}

/// A table that the request does not name keeps its indexes and its cold
/// owner, and comes neither into being nor to an end.
pub proof fn law_unnamed_table_is_left_alone(
    before: RuntimeContents,
    request: DdlRequest,
    order: Seq<usize>,
    prepared: Option<BoundCatalog>,
    outcomes: PublishOutcomes,
    table: Seq<char>,
)
    requires
        keeps_schema(request, table),
        keeps_place(request, table),
        keeps_index_names(request, table),
        forall|a: int|
            0 <= a < order.len() ==> (#[trigger] order[a]) < request.schema_changes@.len(),
        published_ddl(before, request, order, prepared, outcomes).1 is None,
    ensures
        ({
            let after = published_ddl(before, request, order, prepared, outcomes).0;
            &&& after.stores.dom().contains(table) == before.stores.dom().contains(table)
            &&& before.stores.dom().contains(table) ==> after.stores[table].indexes
                == before.stores[table].indexes
            &&& after.cold.dom().contains(table) == before.cold.dom().contains(table)
            &&& before.cold.dom().contains(table) ==> after.cold[table] == before.cold[table]
        }),
{
    if has_work(request) {
        lemma_shaped(before, request, order, outcomes, table);
        lemma_placed(before, request, order, prepared, outcomes, table);
        let fate = stages(before, request, order, outcomes);
        assert forall|i: int| 0 <= i < request.index_drops@.len() implies lowercase_text(
            (#[trigger] request.index_drops@[i]).table_name@,
        ) != table by {
            assert(!drops_index(request, table, i));
        }
        assert forall|i: int| 0 <= i < request.index_renames@.len() implies lowercase_text(
            (#[trigger] request.index_renames@[i]).table_name@,
        ) != table by {
            assert(!renames_index(request, table, i));
        }
        lemma_index_drops_frame(
            fate.shaped,
            fate.shaped_cold,
            request.dropped_tables@,
            request.index_drops@,
            0,
            table,
        );
        lemma_index_renames_frame(
            request.txn_id,
            stores_without_indexes(fate.shaped, request.dropped_tables@, request.index_drops@, 0),
            cold_without_indexes(
                fate.shaped_cold,
                request.dropped_tables@,
                request.index_drops@,
                0,
            ),
            request.index_renames@,
            outcomes.index_renames@,
            0,
            table,
        );
    } else if request.has_catalog_mutation {
        lemma_only_installed(before, request, order, prepared, outcomes, table);
    }
}

proof fn lemma_only_installed(
    before: RuntimeContents,
    request: DdlRequest,
    order: Seq<usize>,
    prepared: Option<BoundCatalog>,
    outcomes: PublishOutcomes,
    table: Seq<char>,
)
    requires
        !has_work(request),
        forall|a: int|
            0 <= a < order.len() ==> (#[trigger] order[a]) < request.schema_changes@.len(),
        published_ddl(before, request, order, prepared, outcomes).1 is None,
    ensures
        ({
            let after = published_ddl(before, request, order, prepared, outcomes).0;
            &&& after.stores.dom() == before.stores.dom()
            &&& before.stores.dom().contains(table) ==> after.stores[table].indexes
                == before.stores[table].indexes
            &&& after.cold == before.cold
        }),
{
    if order.len() > 0 {
        assert(order[0] < request.schema_changes@.len());
    }
    if let Some(bound) = prepared {
        lemma_bound_frame(before.stores, Map::empty(), bound.schemas@, 0, table);
    }
}

/// A dropped table has no store and no cold owner any more, and where the
/// catalog is not taken over from elsewhere, no schema and no foreign key that
/// refers to it.
pub proof fn law_dropped_table_is_gone(
    before: RuntimeContents,
    request: DdlRequest,
    order: Seq<usize>,
    prepared: Option<BoundCatalog>,
    outcomes: PublishOutcomes,
    k: int,
    child: Seq<char>,
)
    requires
        0 <= k < request.dropped_tables@.len(),
        published_ddl(before, request, order, prepared, outcomes).1 is None,
    ensures
        ({
            let after = published_ddl(before, request, order, prepared, outcomes).0;
            let table = request.dropped_tables@[k].name@;
            &&& !after.stores.dom().contains(table)
            &&& !after.cold.dom().contains(table)
            &&& !request.has_catalog_mutation ==> {
                &&& !after.schemas.dom().contains(table)
                &&& after.schemas.dom().contains(child) ==> !refers(after.schemas[child], table)
            }
        }),
{
    let table = request.dropped_tables@[k].name@;
    assert(request.dropped_tables@[k].name@ == table);
    let changed = super::commit::after_schemas(before, request, order, outcomes).0;
    let fate = stages(before, request, order, outcomes);
    let schemas = schemas_after_renames(changed.schemas, request.table_renames@, 0);
    lemma_drops_are_gone(
        schemas,
        stores_after_renames(fate.indexed, request.table_renames@, 0),
        cold_after_renames(fate.indexed_cold, request.table_renames@, 0),
        request.dropped_tables@,
        0,
        table,
    );
    if schemas_after_drops(schemas, request.dropped_tables@, 0).dom().contains(child) {
        lemma_no_reference_left(schemas, request.dropped_tables@, 0, table, child);
    }
    lemma_installed(before, request, order, prepared, outcomes, table);
}

/// A renamed table is there under its new name alone, with its indexes and its
/// cold owner; its schema is the same but for the name.
pub proof fn law_renamed_table_moves_with_everything(
    before: RuntimeContents,
    request: DdlRequest,
    order: Seq<usize>,
    prepared: Option<BoundCatalog>,
    outcomes: PublishOutcomes,
    k: int,
)
    requires
        0 <= k < request.table_renames@.len(),
        forall|a: int|
            0 <= a < order.len() ==> (#[trigger] order[a]) < request.schema_changes@.len(),
        request.dropped_tables@.len() == 0,
        request.index_drops@.len() == 0,
        request.index_renames@.len() == 0,
        ({
            let old_name = request.table_renames@[k].old_name@;
            let new_name = request.table_renames@[k].new_name@;
            &&& old_name != new_name
            &&& before.stores.dom().contains(old_name)
            &&& before.schemas.dom().contains(old_name)
            &&& keeps_schema(request, old_name)
            &&& forall|i: int| i != k ==> !#[trigger] moves_table(request, old_name, i)
            &&& forall|i: int| i != k ==> !#[trigger] moves_table(request, new_name, i)
        }),
        published_ddl(before, request, order, prepared, outcomes).1 is None,
    ensures
        ({
            let after = published_ddl(before, request, order, prepared, outcomes).0;
            let old_name = request.table_renames@[k].old_name@;
            let new_name = request.table_renames@[k].new_name@;
            &&& !after.stores.dom().contains(old_name)
            &&& after.stores.dom().contains(new_name)
            &&& after.stores[new_name].indexes == before.stores[old_name].indexes
            &&& !after.cold.dom().contains(old_name)
            &&& before.cold.dom().contains(old_name) ==> after.cold.dom().contains(new_name)
                && after.cold[new_name] == before.cold[old_name]
            &&& !request.has_catalog_mutation ==> {
                &&& !after.schemas.dom().contains(old_name)
                &&& after.schemas.dom().contains(new_name)
                &&& is_same_but_named(before.schemas[old_name], after.schemas[new_name], new_name)
                &&& is_same_but_named(
                    before.stores[old_name].schema,
                    after.stores[new_name].schema,
                    new_name,
                )
            }
        }),
{
    let old_name = request.table_renames@[k].old_name@;
    let new_name = request.table_renames@[k].new_name@;
    lemma_shaped(before, request, order, outcomes, old_name);
    let changed = super::commit::after_schemas(before, request, order, outcomes).0;
    let fate = stages(before, request, order, outcomes);
    assert(fate.indexed == changed.stores);
    assert(fate.indexed_cold == changed.cold);
    assert forall|m: int| 0 <= m < request.table_renames@.len() && m != k implies {
        &&& (#[trigger] request.table_renames@[m]).old_name@ != old_name
        &&& request.table_renames@[m].new_name@ != old_name
        &&& request.table_renames@[m].old_name@ != new_name
        &&& request.table_renames@[m].new_name@ != new_name
    } by {
        assert(!moves_table(request, old_name, m));
        assert(!moves_table(request, new_name, m));
    }
    lemma_moved_once(
        changed.schemas,
        fate.indexed,
        fate.indexed_cold,
        request.table_renames@,
        0,
        k,
    );
    lemma_installed(before, request, order, prepared, outcomes, new_name);
    lemma_installed(before, request, order, prepared, outcomes, old_name);
}

/// A created table is published with the schema and the indexes that were
/// reserved for it, and its reservation ends.
pub proof fn law_created_table_is_published(
    before: RuntimeContents,
    request: DdlRequest,
    order: Seq<usize>,
    prepared: Option<BoundCatalog>,
    outcomes: PublishOutcomes,
    k: int,
)
    requires
        0 <= k < request.created_tables@.len(),
        forall|a: int|
            0 <= a < order.len() ==> (#[trigger] order[a]) < request.schema_changes@.len(),
        ({
            let table = lowercase_text(request.created_tables@[k].name@);
            &&& before.pending.dom().contains(table)
            &&& forall|i: int| i != k ==> !#[trigger] creates(request, table, i)
            &&& forall|i: int| !#[trigger] changes(request, table, i)
            &&& keeps_place(request, table)
            &&& keeps_index_names(request, table)
        }),
        published_ddl(before, request, order, prepared, outcomes).1 is None,
    ensures
        ({
            let after = published_ddl(before, request, order, prepared, outcomes).0;
            let table = lowercase_text(request.created_tables@[k].name@);
            &&& after.stores.dom().contains(table)
            &&& after.stores[table].indexes.len() == before.pending[table].indexes@.len()
            &&& forall|i: int|
                0 <= i < before.pending[table].indexes@.len()
                    ==> (#[trigger] after.stores[table].indexes[i])
                    == before.pending[table].indexes@[i]@
            &&& !after.pending.dom().contains(table)
            &&& !request.has_catalog_mutation && request.dropped_tables@.len() == 0 ==> {
                &&& after.schemas.dom().contains(table)
                &&& after.schemas[table] == before.pending[table].schema@
                &&& after.stores[table].schema == before.pending[table].schema@
            }
        }),
{
    let table = lowercase_text(request.created_tables@[k].name@);
    assert forall|m: int| 0 <= m < request.created_tables@.len() && m != k implies lowercase_text(
        (#[trigger] request.created_tables@[m]).name@,
    ) != table by {
        assert(!creates(request, table, m));
    }
    assert forall|m: int| 0 <= m < request.schema_changes@.len() implies lowercase_text(
        (#[trigger] request.schema_changes@[m]).table_name@,
    ) != table by {
        assert(!changes(request, table, m));
    }
    assert forall|i: int| 0 <= i < request.index_drops@.len() implies lowercase_text(
        (#[trigger] request.index_drops@[i]).table_name@,
    ) != table by {
        assert(!drops_index(request, table, i));
    }
    assert forall|i: int| 0 <= i < request.index_renames@.len() implies lowercase_text(
        (#[trigger] request.index_renames@[i]).table_name@,
    ) != table by {
        assert(!renames_index(request, table, i));
    }
    lemma_created_once(
        before.stores,
        before.schemas,
        before.pending,
        request.created_tables@,
        0,
        k,
        table,
    );
    let s1 = stores_with_created(before.stores, before.pending, request.created_tables@, 0);
    let a1 = schemas_with_created(before.schemas, before.pending, request.created_tables@, 0);
    let s2 = stores_after_transitions(
        request.txn_id,
        s1,
        request.schema_changes@,
        outcomes.transitions@,
        0,
    ).0;
    lemma_transitions_frame(
        request.txn_id,
        s1,
        request.schema_changes@,
        outcomes.transitions@,
        0,
        table,
    );
    lemma_schemas_frame(
        SchemaOwners { schemas: a1, stores: s2, cold: before.cold },
        request.schema_changes@,
        order,
        outcomes.key_indexes@,
        before.schema_epoch,
        0,
        table,
    );
    let fate = stages(before, request, order, outcomes);
    let changed = super::commit::after_schemas(before, request, order, outcomes).0;
    lemma_index_drops_frame(
        fate.shaped,
        fate.shaped_cold,
        request.dropped_tables@,
        request.index_drops@,
        0,
        table,
    );
    lemma_index_renames_frame(
        request.txn_id,
        stores_without_indexes(fate.shaped, request.dropped_tables@, request.index_drops@, 0),
        cold_without_indexes(fate.shaped_cold, request.dropped_tables@, request.index_drops@, 0),
        request.index_renames@,
        outcomes.index_renames@,
        0,
        table,
    );
    lemma_placed(before, request, order, prepared, outcomes, table);
    lemma_installed(before, request, order, prepared, outcomes, table);
    assert forall|m: int| 0 <= m < request.table_renames@.len() implies (
    #[trigger] request.table_renames@[m]).old_name@ != table
        && request.table_renames@[m].new_name@ != table by {
        assert(!moves_table(request, table, m));
    }
    lemma_moves_frame(
        changed.schemas,
        fate.indexed,
        fate.indexed_cold,
        request.table_renames@,
        0,
        table,
    );
}

/// Where a typed catalog takes over, its schemas are the catalog's and the
/// stores', its views are the views, and there are no others.
pub proof fn law_typed_catalog_takes_over(
    before: RuntimeContents,
    request: DdlRequest,
    order: Seq<usize>,
    bound: BoundCatalog,
    outcomes: PublishOutcomes,
    k: int,
    name: Seq<char>,
)
    requires
        request.has_catalog_mutation,
        has_work(request),
        published_ddl(before, request, order, Some(bound), outcomes).1 is None,
    ensures
        ({
            let after = published_ddl(before, request, order, Some(bound), outcomes).0;
            &&& outcomes.catalog is Ok
            &&& after.schemas.dom().contains(name) <==> exists|i: int|
                0 <= i < bound.schemas@.len() && (
                #[trigger] bound.schemas@[i]).table_name_lower@ == name
            &&& after.views.dom().contains(name) <==> exists|i: int|
                0 <= i < bound.views@.len() && (#[trigger] bound.views@[i]).name@ == name
            &&& 0 <= k < bound.views@.len() ==> after.views[bound.views@[k].name@]
                == bound.views@[k]@
            &&& 0 <= k < bound.schemas@.len() && (forall|m: int|
                k < m < bound.schemas@.len() ==> (#[trigger] bound.schemas@[m]).table_name_lower@
                    != bound.schemas@[k].table_name_lower@) ==> {
                let lower = bound.schemas@[k].table_name_lower@;
                after.schemas[lower] == bound.schemas@[k]@ && after.stores[lower].schema
                    == bound.schemas@[k]@
            }
        }),
{
    let changed = super::commit::after_schemas(before, request, order, outcomes).0;
    let moved = super::commit::after_moves(changed, request, outcomes).0;
    lemma_bound_schemas(moved.stores, Map::empty(), bound.schemas@, 0, name);
    lemma_bound_views(Map::empty(), bound.views@, 0, name);
    if 0 <= k < bound.schemas@.len() {
        lemma_bound_schemas(
            moved.stores,
            Map::empty(),
            bound.schemas@,
            0,
            bound.schemas@[k].table_name_lower@,
        );
    }
    if 0 <= k < bound.views@.len() {
        lemma_bound_views(Map::empty(), bound.views@, 0, bound.views@[k].name@);
    }
}

/// What a schema change leaves in the cold owner of its table.
pub open spec fn is_noted(
    events: Seq<ColumnEventView>,
    transition: Option<SchemaPhysicalTransition>,
    schema_epoch: u64,
) -> bool {
    match transition {
        Some(SchemaPhysicalTransition::DropColumn { column_name, column_index }) =>
            events.contains(ColumnEventView::Dropped(column_name@, schema_epoch)),
        Some(SchemaPhysicalTransition::RenameColumn { old_name, new_name }) => events.contains(
            ColumnEventView::Renamed(old_name@, new_name@),
        ),
        None => true,
    }
}

proof fn lemma_events(
    changes: Seq<PendingSchemaChange>,
    name: Seq<char>,
    schema_epoch: u64,
    n: int,
    k: int,
)
    requires
        0 <= k < n <= changes.len(),
        same_ignoring_ascii_case(changes[k].table_name@, name),
    ensures
        is_noted(
            events_of(changes, name, schema_epoch, n),
            changes[k].physical_transition,
            schema_epoch,
        ),
    decreases n,
{
    let events = events_of(changes, name, schema_epoch, n);
    let earlier = events_of(changes, name, schema_epoch, n - 1);
    if k < n - 1 {
        lemma_events(changes, name, schema_epoch, n - 1, k);
        assert forall|e: ColumnEventView| earlier.contains(e) implies events.contains(e) by {
            let at = choose|at: int| 0 <= at < earlier.len() && earlier[at] == e;
            assert(events[at] == e);
        }
    } else if changes[k].physical_transition is Some {
        assert(events[earlier.len() as int] == events.last());
    }
}

proof fn lemma_schema_once(
    owners: SchemaOwners,
    changes: Seq<PendingSchemaChange>,
    order: Seq<usize>,
    outcomes: Seq<Result<(), Error>>,
    schema_epoch: u64,
    i: int,
    a: int,
    table: Seq<char>,
)
    requires
        0 <= i <= a < order.len(),
        owners.stores.dom().contains(table),
        lowercase_text(changes[order[a] as int].table_name@) == table,
        forall|b: int|
            i <= b < order.len() && b != a ==> lowercase_text(
                changes[(#[trigger] order[b]) as int].table_name@,
            ) != table,
        with_final_schemas(owners, changes, order, outcomes, schema_epoch, i).1 is None,
    ensures
        ({
            let out = with_final_schemas(owners, changes, order, outcomes, schema_epoch, i).0;
            let schema = changes[order[a] as int].schema@;
            &&& out.stores.dom().contains(table)
            &&& out.stores[table].schema == schema
            &&& primary_key_positions(owners.stores[table].schema) == primary_key_positions(schema)
                ==> out.stores[table].indexes == owners.stores[table].indexes
            &&& out.schemas.dom().contains(table)
            &&& out.schemas[table] == schema
            &&& out.cold.dom().contains(table) == owners.cold.dom().contains(table)
            &&& owners.cold.dom().contains(table) ==> {
                &&& out.cold[table].has_segments == owners.cold[table].has_segments
                &&& out.cold[table].populated == owners.cold[table].populated
                &&& out.cold[table].events == owners.cold[table].events + events_of(
                    changes,
                    table,
                    schema_epoch,
                    changes.len() as int,
                )
            }
        }),
    decreases a - i,
{
    let change = changes[order[i] as int];
    let lower = lowercase_text(change.table_name@);
    let store = owners.stores[lower];
    let next = SchemaOwners {
        schemas: owners.schemas.insert(lower, change.schema@),
        stores: owners.stores.insert(lower, super::publish::published_store(store, change.schema@)),
        cold: super::publish::cold_with_events(owners.cold, changes, lower, schema_epoch),
    };
    if i < a {
        lemma_schema_once(next, changes, order, outcomes, schema_epoch, i + 1, a, table);
    } else {
        lemma_schemas_frame(next, changes, order, outcomes, schema_epoch, i + 1, table);
    }
}

/// A changed schema is the last one that was staged for its table. Each column
/// that the change drops or renames is noted in the cold owner, behind what was
/// noted before; the rest of the owner is unchanged. Where neither the key nor
/// the columns move, the indexes stay.
#[verifier::rlimit(30)]
pub proof fn law_changed_schema_takes_effect(
    before: RuntimeContents,
    request: DdlRequest,
    order: Seq<usize>,
    prepared: Option<BoundCatalog>,
    outcomes: PublishOutcomes,
    last: int,
    k: int,
)
    requires
        is_final_order(request.schema_changes@, order),
        0 <= k <= last < request.schema_changes@.len(),
        ({
            let table = lowercase_text(request.schema_changes@[last].table_name@);
            &&& same_ignoring_ascii_case(request.schema_changes@[k].table_name@, table)
            &&& forall|i: int| i > last ==> !#[trigger] changes(request, table, i)
            &&& before.stores.dom().contains(table)
            &&& forall|i: int| !#[trigger] creates(request, table, i)
            &&& keeps_place(request, table)
            &&& keeps_index_names(request, table)
        }),
        published_ddl(before, request, order, prepared, outcomes).1 is None,
    ensures
        ({
            let after = published_ddl(before, request, order, prepared, outcomes).0;
            let staged = request.schema_changes@;
            let table = lowercase_text(staged[last].table_name@);
            &&& after.stores.dom().contains(table)
            &&& !request.has_catalog_mutation && request.dropped_tables@.len() == 0 ==> {
                &&& after.stores[table].schema == staged[last].schema@
                &&& after.schemas.dom().contains(table)
                &&& after.schemas[table] == staged[last].schema@
            }
            &&& before.cold.dom().contains(table) ==> {
                &&& after.cold.dom().contains(table)
                &&& after.cold[table].has_segments == before.cold[table].has_segments
                &&& after.cold[table].populated == before.cold[table].populated
                &&& before.cold[table].events.is_prefix_of(after.cold[table].events)
                &&& is_noted(
                    after.cold[table].events.skip(before.cold[table].events.len() as int),
                    staged[k].physical_transition,
                    before.schema_epoch,
                )
            }
            &&& (forall|i: int|
                #[trigger] changes(request, table, i) ==> staged[i].physical_transition is None)
                && primary_key_positions(before.stores[table].schema) == primary_key_positions(
                staged[last].schema@,
            ) ==> after.stores[table].indexes == before.stores[table].indexes
        }),
{
    let staged = request.schema_changes@;
    let table = lowercase_text(staged[last].table_name@);
    assert(super::prepare::change_name(staged, last) == table);
    assert(super::prepare::is_last_change(staged, last)) by {
        assert forall|m: int| last < m < staged.len() implies #[trigger] super::prepare::change_name(
            staged,
            m,
        ) != table by {
            assert(!changes(request, table, m));
        }
    }
    let a = choose|a: int| 0 <= a < order.len() && #[trigger] order[a] == last;
    assert forall|b: int| 0 <= b < order.len() && b != a implies lowercase_text(
        staged[(#[trigger] order[b]) as int].table_name@,
    ) != table by {
        let x = super::prepare::change_name(staged, order[a] as int);
        let y = super::prepare::change_name(staged, order[b] as int);
        crate::text::lemma_text_before_total(x, y);
        crate::text::lemma_text_before_total(x, x);
        if a < b {
            assert(crate::text::text_before(x, y));
        } else {
            assert(crate::text::text_before(y, x));
        }
    }
    assert forall|m: int| 0 <= m < request.created_tables@.len() implies lowercase_text(
        (#[trigger] request.created_tables@[m]).name@,
    ) != table by {
        assert(!creates(request, table, m));
    }
    assert forall|i: int| 0 <= i < request.index_drops@.len() implies lowercase_text(
        (#[trigger] request.index_drops@[i]).table_name@,
    ) != table by {
        assert(!drops_index(request, table, i));
    }
    assert forall|i: int| 0 <= i < request.index_renames@.len() implies lowercase_text(
        (#[trigger] request.index_renames@[i]).table_name@,
    ) != table by {
        assert(!renames_index(request, table, i));
    }
    let s1 = stores_with_created(before.stores, before.pending, request.created_tables@, 0);
    let a1 = schemas_with_created(before.schemas, before.pending, request.created_tables@, 0);
    lemma_created_frame(
        before.stores,
        before.schemas,
        before.pending,
        request.created_tables@,
        0,
        table,
    );
    let s2 = stores_after_transitions(
        request.txn_id,
        s1,
        staged,
        outcomes.transitions@,
        0,
    ).0;
    lemma_transitions_frame(request.txn_id, s1, staged, outcomes.transitions@, 0, table);
    if forall|i: int|
        #[trigger] changes(request, table, i) ==> staged[i].physical_transition is None {
        assert forall|m: int| 0 <= m < staged.len() implies lowercase_text(
            (#[trigger] staged[m]).table_name@,
        ) != table || staged[m].physical_transition is None by {
            assert(changes(request, table, m) ==> staged[m].physical_transition is None);
        }
        assert(s2[table] == s1[table]);
    }
    lemma_schema_once(
        SchemaOwners { schemas: a1, stores: s2, cold: before.cold },
        staged,
        order,
        outcomes.key_indexes@,
        before.schema_epoch,
        0,
        a,
        table,
    );
    let fate = stages(before, request, order, outcomes);
    let changed = super::commit::after_schemas(before, request, order, outcomes).0;
    lemma_index_drops_frame(
        fate.shaped,
        fate.shaped_cold,
        request.dropped_tables@,
        request.index_drops@,
        0,
        table,
    );
    lemma_index_renames_frame(
        request.txn_id,
        stores_without_indexes(fate.shaped, request.dropped_tables@, request.index_drops@, 0),
        cold_without_indexes(fate.shaped_cold, request.dropped_tables@, request.index_drops@, 0),
        request.index_renames@,
        outcomes.index_renames@,
        0,
        table,
    );
    lemma_placed(before, request, order, prepared, outcomes, table);
    lemma_installed(before, request, order, prepared, outcomes, table);
    assert forall|m: int| 0 <= m < request.table_renames@.len() implies (
    #[trigger] request.table_renames@[m]).old_name@ != table
        && request.table_renames@[m].new_name@ != table by {
        assert(!moves_table(request, table, m));
    }
    lemma_moves_frame(
        changed.schemas,
        fate.indexed,
        fate.indexed_cold,
        request.table_renames@,
        0,
        table,
    );
    if before.cold.dom().contains(table) {
        let after = published_ddl(before, request, order, prepared, outcomes).0;
        let old_events = before.cold[table].events;
        let fresh = events_of(staged, table, before.schema_epoch, staged.len() as int);
        assert(after.cold[table].events == old_events + fresh);
        assert((old_events + fresh).skip(old_events.len() as int) =~= fresh);
        assert((old_events + fresh).subrange(0, old_events.len() as int) =~= old_events);
        lemma_events(staged, table, before.schema_epoch, staged.len() as int, k);
    }
}

} // verus!
