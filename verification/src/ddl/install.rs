//! Index and table moves of a committed transaction, and the typed catalog.
use crate::ddl::final_catalog::lemma_contents_insert;
use crate::ddl::final_catalog::lemma_contents_remove;
use crate::ddl::final_catalog::rename_table;
use crate::ddl::final_catalog::renamed_schema;
use crate::ddl::final_catalog::Catalog;
use crate::ddl::publish::cold_contents;
use crate::ddl::publish::cold_wf;
use crate::ddl::publish::lemma_cold_insert;
use crate::ddl::publish::lemma_cold_remove;
use crate::ddl::publish::lemma_store_insert;
use crate::ddl::publish::lemma_store_remove;
use crate::ddl::publish::remove_index;
use crate::ddl::publish::store_contents;
use crate::ddl::publish::without_index;
use crate::ddl::publish::ColdMap;
use crate::ddl::publish::ColdOwner;
use crate::ddl::publish::ColdView;
use crate::ddl::publish::StoreMap;
use crate::ddl::request::schema_contents;
use crate::ddl::request::BoundCatalog;
use crate::ddl::request::DroppedTable;
use crate::ddl::request::PendingIndexDrop;
use crate::ddl::request::PendingIndexRename;
use crate::ddl::request::PendingTableRename;
use crate::ddl::request::Store;
use crate::ddl::request::StoreView;
use crate::error::refusal;
use crate::error::Error;
use crate::error::ErrorView;
use crate::model::views;
use crate::model::Model;
use crate::names::association;
use crate::names::distinct_names;
use crate::names::lemma_entry;
use crate::names::named_at;
use crate::names::NameMap;
use crate::schema::strip_parent;
use crate::schema::stripped_schema;
use crate::schema::IndexInfo;
use crate::schema::IndexView;
use crate::schema::Schema;
use crate::schema::SchemaView;
use crate::text::eq_ignore_ascii_case;
use crate::text::lowercase_text;
use crate::text::same_ignoring_ascii_case;
use crate::text::same_text;
use crate::text::signed_decimal;
use crate::text::signed_decimal_digits;
use crate::text::to_lowercase;
use crate::view::ViewContent;
use crate::view::ViewDefinition;
use vstd::prelude::*;
use vstd::string::StringExecFns;

verus! {

pub open spec fn is_table_dropped_at(
    dropped: Seq<DroppedTable>,
    table_name: Seq<char>,
    i: int,
) -> bool {
    0 <= i < dropped.len() && same_ignoring_ascii_case(dropped[i].name@, table_name)
}

/// Whether an index goes with its table.
pub open spec fn goes_with_table(dropped: Seq<DroppedTable>, table_name: Seq<char>) -> bool {
    exists|i: int| #[trigger] is_table_dropped_at(dropped, table_name, i)
}

fn goes_too(dropped: &Vec<DroppedTable>, table_name: &str) -> (r: bool)
    ensures
        r == goes_with_table(dropped@, table_name@),
{
    let mut i: usize = 0;
    while i < dropped.len()
        invariant
            0 <= i <= dropped@.len(),
            forall|k: int| k < i ==> !#[trigger] is_table_dropped_at(dropped@, table_name@, k),
        decreases dropped@.len() - i,
    {
        if eq_ignore_ascii_case(dropped[i].name.as_str(), table_name) {
            assert(is_table_dropped_at(dropped@, table_name@, i as int));
            return true;
        }
        i = i + 1;
    }
    false
}

/// Whether an index drop is carried out on its own.
pub open spec fn drops_alone(dropped: Seq<DroppedTable>, drop: PendingIndexDrop) -> bool {
    !drop.schema_owned && !goes_with_table(dropped, drop.table_name@)
}

/// Every index that is dropped on its own has its table.
pub open spec fn index_drops_applicable(
    stores: Set<Seq<char>>,
    dropped: Seq<DroppedTable>,
    drops: Seq<PendingIndexDrop>,
) -> bool {
    forall|i: int|
        0 <= i < drops.len() && drops_alone(dropped, #[trigger] drops[i]) ==> stores.contains(
            lowercase_text(drops[i].table_name@),
        )
}

pub open spec fn stores_without_indexes(
    stores: StoreMap,
    dropped: Seq<DroppedTable>,
    drops: Seq<PendingIndexDrop>,
    i: int,
) -> StoreMap
    decreases drops.len() - i,
{
    if i < 0 || i >= drops.len() {
        stores
    } else {
        let lower = lowercase_text(drops[i].table_name@);
        let next = if drops_alone(dropped, drops[i]) {
            stores.insert(
                lower,
                StoreView {
                    indexes: without_index(stores[lower].indexes, drops[i].index_name@),
                    ..stores[lower]
                },
            )
        } else {
            stores
        };
        stores_without_indexes(next, dropped, drops, i + 1)
    }
}

pub open spec fn cold_without_indexes(
    cold: ColdMap,
    dropped: Seq<DroppedTable>,
    drops: Seq<PendingIndexDrop>,
    i: int,
) -> ColdMap
    decreases drops.len() - i,
{
    if i < 0 || i >= drops.len() {
        cold
    } else {
        let lower = lowercase_text(drops[i].table_name@);
        let next = if drops_alone(dropped, drops[i]) && cold.dom().contains(lower) {
            cold.insert(
                lower,
                ColdView {
                    populated: cold[lower].populated.remove(drops[i].index_name@),
                    ..cold[lower]
                },
            )
        } else {
            cold
        };
        cold_without_indexes(next, dropped, drops, i + 1)
    }
}

fn unmark_populated(cold: &mut NameMap<ColdOwner>, table: &str, index: &str)
    requires
        old(cold).wf(),
        cold_wf(old(cold)@),
    ensures
        final(cold).wf(),
        cold_wf(final(cold)@),
        cold_contents(final(cold)@) == if old(cold)@.dom().contains(table@) {
            cold_contents(old(cold)@).insert(
                table@,
                ColdView {
                    populated: old(cold)@[table@]@.populated.remove(index@),
                    ..old(cold)@[table@]@
                },
            )
        } else {
            cold_contents(old(cold)@)
        },
{
    let ghost before = cold@;
    match cold.remove(table) {
        Some(found) => {
            let mut owner: ColdOwner = found;
            let ghost held = owner@;
            owner.populated.remove(index);
            proof {
                assert(owner@.populated =~= held.populated.remove(index@));
                lemma_cold_remove(before, table@);
                lemma_cold_insert(cold@, table@, owner);
                assert(cold_contents(before).remove(table@).insert(table@, owner@)
                    =~= cold_contents(before).insert(table@, owner@));
            }
            cold.insert(String::from_str(table), owner);
        },
        None => {
            assert(before.remove(table@) =~= before);
        },
    }
}

/// Removes the indexes that are dropped on their own.
pub fn publish_index_drops(
    stores: &mut NameMap<Store>,
    cold: &mut NameMap<ColdOwner>,
    dropped: &Vec<DroppedTable>,
    drops: &Vec<PendingIndexDrop>,
)
    requires
        old(stores).wf(),
        old(cold).wf(),
        cold_wf(old(cold)@),
        index_drops_applicable(old(stores)@.dom(), dropped@, drops@),
    ensures
        final(stores).wf(),
        final(cold).wf(),
        cold_wf(final(cold)@),
        final(stores)@.dom() == old(stores)@.dom(),
        store_contents(final(stores)@) == stores_without_indexes(
            store_contents(old(stores)@),
            dropped@,
            drops@,
            0,
        ),
        cold_contents(final(cold)@) == cold_without_indexes(
            cold_contents(old(cold)@),
            dropped@,
            drops@,
            0,
        ),
{
    let ghost all_stores = stores_without_indexes(store_contents(stores@), dropped@, drops@, 0);
    let ghost all_cold = cold_without_indexes(cold_contents(cold@), dropped@, drops@, 0);
    let mut i: usize = 0;
    while i < drops.len()
        invariant
            0 <= i <= drops@.len(),
            stores.wf(),
            cold.wf(),
            cold_wf(cold@),
            stores@.dom() =~= old(stores)@.dom(),
            index_drops_applicable(stores@.dom(), dropped@, drops@),
            all_stores == stores_without_indexes(
                store_contents(stores@),
                dropped@,
                drops@,
                i as int,
            ),
            all_cold == cold_without_indexes(cold_contents(cold@), dropped@, drops@, i as int),
        decreases drops@.len() - i,
    {
        let drop: &PendingIndexDrop = &drops[i];
        if !drop.schema_owned && !goes_too(dropped, drop.table_name.as_str()) {
            assert(drops_alone(dropped@, drops@[i as int]));
            let lower: String = to_lowercase(drop.table_name.as_str());
            let ghost before = stores@;
            assert(before.dom().contains(lower@));
            let store: Store = stores.remove(lower.as_str()).unwrap();
            assert(store_contents(before)[lower@] == store@);
            let next: Store = Store {
                schema: store.schema,
                indexes: remove_index(store.indexes, drop.index_name.as_str()),
            };
            proof {
                lemma_store_remove(before, lower@);
                lemma_store_insert(stores@, lower@, next);
                assert(store_contents(before).remove(lower@).insert(lower@, next@)
                    =~= store_contents(before).insert(lower@, next@));
            }
            unmark_populated(cold, lower.as_str(), drop.index_name.as_str());
            stores.insert(lower, next);
        }
        i = i + 1;
    }
}

/// An index under its new name, if it is the one renamed.
pub open spec fn renamed_index(
    index: IndexView,
    old_name: Seq<char>,
    new_name: Seq<char>,
) -> IndexView {
    if index.name == old_name {
        IndexView { name: new_name, ..index }
    } else {
        index
    }
}

pub open spec fn renaming_index(old_name: Seq<char>, new_name: Seq<char>) -> spec_fn(
    IndexView,
) -> IndexView {
    |index: IndexView| renamed_index(index, old_name, new_name)
}

pub open spec fn renamed_populated(
    populated: Set<Seq<char>>,
    old_name: Seq<char>,
    new_name: Seq<char>,
) -> Set<Seq<char>> {
    if populated.contains(old_name) {
        populated.remove(old_name).insert(new_name)
    } else {
        populated
    }
}

/// Every renamed index has its table.
pub open spec fn index_renames_applicable(
    stores: Set<Seq<char>>,
    renames: Seq<PendingIndexRename>,
) -> bool {
    forall|i: int|
        0 <= i < renames.len() ==> stores.contains(
            lowercase_text((#[trigger] renames[i]).table_name@),
        )
}

pub open spec fn index_rename_error(
    txn_id: i64,
    rename: PendingIndexRename,
    text: Seq<char>,
) -> ErrorView {
    ErrorView::WalDurabilityUncertain(
        "transaction "@ + signed_decimal_digits(txn_id as int) + " committed ALTER INDEX '"@
            + rename.table_name@ + "."@ + rename.old_index_name@
            + "' but runtime publication requires recovery: "@ + text,
    )
}

/// Stores and cold owners after the index renames from `i` on, up to the first
/// that fails, and that failure.
pub open spec fn with_index_renames(
    txn_id: i64,
    stores: StoreMap,
    cold: ColdMap,
    renames: Seq<PendingIndexRename>,
    outcomes: Seq<Result<(), String>>,
    i: int,
) -> (StoreMap, ColdMap, Option<ErrorView>)
    decreases renames.len() - i,
{
    if i < 0 || i >= renames.len() {
        (stores, cold, None)
    } else {
        let rename = renames[i];
        let lower = lowercase_text(rename.table_name@);
        match outcomes[i] {
            Err(text) => (stores, cold, Some(index_rename_error(txn_id, rename, text@))),
            Ok(_) => with_index_renames(
                txn_id,
                stores.insert(
                    lower,
                    StoreView {
                        indexes: stores[lower].indexes.map_values(
                            renaming_index(rename.old_index_name@, rename.new_index_name@),
                        ),
                        ..stores[lower]
                    },
                ),
                if cold.dom().contains(lower) {
                    cold.insert(
                        lower,
                        ColdView {
                            populated: renamed_populated(
                                cold[lower].populated,
                                rename.old_index_name@,
                                rename.new_index_name@,
                            ),
                            ..cold[lower]
                        },
                    )
                } else {
                    cold
                },
                renames,
                outcomes,
                i + 1,
            ),
        }
    }
}

fn rename_index(indexes: Vec<IndexInfo>, old_name: &str, new_name: &str) -> (out: Vec<IndexInfo>)
    ensures
        views(out@) == views(indexes@).map_values(renaming_index(old_name@, new_name@)),
{
    let ghost all = indexes@;
    let ghost change = renaming_index(old_name@, new_name@);
    let mut out: Vec<IndexInfo> = indexes;
    let mut i: usize = 0;
    while i < out.len()
        invariant
            0 <= i <= out@.len() == all.len(),
            change == renaming_index(old_name@, new_name@),
            forall|k: int| 0 <= k < i ==> (#[trigger] out@[k])@ == change(all[k]@),
            forall|k: int| i <= k < all.len() ==> out@[k] == all[k],
        decreases out@.len() - i,
    {
        if same_text(out[i].name.as_str(), old_name) {
            let found: IndexInfo = out.remove(i);
            let next: IndexInfo = IndexInfo {
                name: String::from_str(new_name),
                index_type: found.index_type,
                is_unique: found.is_unique,
                column_ids: found.column_ids,
                predicate_columns: found.predicate_columns,
            };
            assert(next@ == change(all[i as int]@));
            out.insert(i, next);
        }
        i = i + 1;
    }
    assert(views(out@) =~= views(all).map_values(change));
    out
}

fn rename_populated(cold: &mut NameMap<ColdOwner>, table: &str, old_name: &str, new_name: &str)
    requires
        old(cold).wf(),
        cold_wf(old(cold)@),
    ensures
        final(cold).wf(),
        cold_wf(final(cold)@),
        cold_contents(final(cold)@) == if old(cold)@.dom().contains(table@) {
            cold_contents(old(cold)@).insert(
                table@,
                ColdView {
                    populated: renamed_populated(
                        old(cold)@[table@]@.populated,
                        old_name@,
                        new_name@,
                    ),
                    ..old(cold)@[table@]@
                },
            )
        } else {
            cold_contents(old(cold)@)
        },
{
    let ghost before = cold@;
    match cold.remove(table) {
        Some(found) => {
            let mut owner: ColdOwner = found;
            let ghost held = owner@;
            if owner.populated.remove(old_name).is_some() {
                owner.populated.insert(String::from_str(new_name), ());
            } else {
                assert(held.populated.remove(old_name@) =~= held.populated);
            }
            proof {
                assert(owner@.populated =~= renamed_populated(
                    held.populated,
                    old_name@,
                    new_name@,
                ));
                lemma_cold_remove(before, table@);
                lemma_cold_insert(cold@, table@, owner);
                assert(cold_contents(before).remove(table@).insert(table@, owner@)
                    =~= cold_contents(before).insert(table@, owner@));
            }
            cold.insert(String::from_str(table), owner);
        },
        None => {
            assert(before.remove(table@) =~= before);
        },
    }
}

/// Renames indexes. A store that refuses after the commit needs recovery.
pub fn publish_index_renames(
    txn_id: i64,
    stores: &mut NameMap<Store>,
    cold: &mut NameMap<ColdOwner>,
    renames: &Vec<PendingIndexRename>,
    outcomes: &Vec<Result<(), String>>,
) -> (r: Result<(), Error>)
    requires
        old(stores).wf(),
        old(cold).wf(),
        cold_wf(old(cold)@),
        outcomes@.len() == renames@.len(),
        index_renames_applicable(old(stores)@.dom(), renames@),
    ensures
        final(stores).wf(),
        final(cold).wf(),
        cold_wf(final(cold)@),
        final(stores)@.dom() == old(stores)@.dom(),
        with_index_renames(
            txn_id,
            store_contents(old(stores)@),
            cold_contents(old(cold)@),
            renames@,
            outcomes@,
            0,
        ) == (store_contents(final(stores)@), cold_contents(final(cold)@), refusal(r)),
{
    let ghost all = with_index_renames(
        txn_id,
        store_contents(stores@),
        cold_contents(cold@),
        renames@,
        outcomes@,
        0,
    );
    let mut i: usize = 0;
    while i < renames.len()
        invariant
            0 <= i <= renames@.len(),
            stores.wf(),
            cold.wf(),
            cold_wf(cold@),
            outcomes@.len() == renames@.len(),
            stores@.dom() =~= old(stores)@.dom(),
            index_renames_applicable(stores@.dom(), renames@),
            all == with_index_renames(
                txn_id,
                store_contents(old(stores)@),
                cold_contents(old(cold)@),
                renames@,
                outcomes@,
                0,
            ),
            all == with_index_renames(
                txn_id,
                store_contents(stores@),
                cold_contents(cold@),
                renames@,
                outcomes@,
                i as int,
            ),
        decreases renames@.len() - i,
    {
        let rename: &PendingIndexRename = &renames[i];
        if let Err(text) = &outcomes[i] {
            return Err(
                Error::WalDurabilityUncertain {
                    detail: String::from_str("transaction ").concat(
                        signed_decimal(txn_id).as_str(),
                    ).concat(" committed ALTER INDEX '").concat(
                        rename.table_name.as_str(),
                    ).concat(".").concat(rename.old_index_name.as_str()).concat(
                        "' but runtime publication requires recovery: ",
                    ).concat(text.as_str()),
                },
            );
        }
        let lower: String = to_lowercase(rename.table_name.as_str());
        let ghost before = stores@;
        assert(before.dom().contains(lower@));
        let store: Store = stores.remove(lower.as_str()).unwrap();
        assert(store_contents(before)[lower@] == store@);
        let next: Store = Store {
            schema: store.schema,
            indexes: rename_index(
                store.indexes,
                rename.old_index_name.as_str(),
                rename.new_index_name.as_str(),
            ),
        };
        proof {
            lemma_store_remove(before, lower@);
            lemma_store_insert(stores@, lower@, next);
            assert(store_contents(before).remove(lower@).insert(lower@, next@) =~= store_contents(
                before,
            ).insert(lower@, next@));
        }
        rename_populated(
            cold,
            lower.as_str(),
            rename.old_index_name.as_str(),
            rename.new_index_name.as_str(),
        );
        stores.insert(lower, next);
        i = i + 1;
    }
    Ok(())
}

/// Every renamed table is there at its turn.
pub open spec fn renameable(
    schemas: Set<Seq<char>>,
    stores: Set<Seq<char>>,
    renames: Seq<PendingTableRename>,
    i: int,
) -> bool
    decreases renames.len() - i,
{
    if i < 0 || i >= renames.len() {
        true
    } else {
        let old_name = renames[i].old_name@;
        let new_name = renames[i].new_name@;
        &&& schemas.contains(old_name)
        &&& stores.contains(old_name)
        &&& renameable(
            schemas.remove(old_name).insert(new_name),
            stores.remove(old_name).insert(new_name),
            renames,
            i + 1,
        )
    }
}

pub open spec fn schemas_after_renames(
    schemas: Catalog,
    renames: Seq<PendingTableRename>,
    i: int,
) -> Catalog
    decreases renames.len() - i,
{
    if i < 0 || i >= renames.len() {
        schemas
    } else {
        let old_name = renames[i].old_name@;
        let new_name = renames[i].new_name@;
        schemas_after_renames(
            schemas.remove(old_name).insert(new_name, renamed_schema(schemas[old_name], new_name)),
            renames,
            i + 1,
        )
    }
}

pub open spec fn stores_after_renames(
    stores: StoreMap,
    renames: Seq<PendingTableRename>,
    i: int,
) -> StoreMap
    decreases renames.len() - i,
{
    if i < 0 || i >= renames.len() {
        stores
    } else {
        let old_name = renames[i].old_name@;
        let new_name = renames[i].new_name@;
        stores_after_renames(
            stores.remove(old_name).insert(
                new_name,
                StoreView {
                    schema: renamed_schema(stores[old_name].schema, new_name),
                    ..stores[old_name]
                },
            ),
            renames,
            i + 1,
        )
    }
}

pub open spec fn cold_after_renames(
    cold: ColdMap,
    renames: Seq<PendingTableRename>,
    i: int,
) -> ColdMap
    decreases renames.len() - i,
{
    if i < 0 || i >= renames.len() {
        cold
    } else {
        let old_name = renames[i].old_name@;
        cold_after_renames(
            if cold.dom().contains(old_name) {
                cold.remove(old_name).insert(renames[i].new_name@, cold[old_name])
            } else {
                cold
            },
            renames,
            i + 1,
        )
    }
}

/// Moves tables to their new names.
pub fn publish_table_renames(
    schemas: &mut NameMap<Schema>,
    stores: &mut NameMap<Store>,
    cold: &mut NameMap<ColdOwner>,
    renames: &Vec<PendingTableRename>,
)
    requires
        old(schemas).wf(),
        old(stores).wf(),
        old(cold).wf(),
        cold_wf(old(cold)@),
        renameable(old(schemas)@.dom(), old(stores)@.dom(), renames@, 0),
    ensures
        final(schemas).wf(),
        final(stores).wf(),
        final(cold).wf(),
        cold_wf(final(cold)@),
        schema_contents(final(schemas)@) == schemas_after_renames(
            schema_contents(old(schemas)@),
            renames@,
            0,
        ),
        store_contents(final(stores)@) == stores_after_renames(
            store_contents(old(stores)@),
            renames@,
            0,
        ),
        cold_contents(final(cold)@) == cold_after_renames(
            cold_contents(old(cold)@),
            renames@,
            0,
        ),
{
    let ghost all_schemas = schemas_after_renames(schema_contents(schemas@), renames@, 0);
    let ghost all_stores = stores_after_renames(store_contents(stores@), renames@, 0);
    let ghost all_cold = cold_after_renames(cold_contents(cold@), renames@, 0);
    let mut i: usize = 0;
    while i < renames.len()
        invariant
            0 <= i <= renames@.len(),
            schemas.wf(),
            stores.wf(),
            cold.wf(),
            cold_wf(cold@),
            renameable(schemas@.dom(), stores@.dom(), renames@, i as int),
            all_schemas == schemas_after_renames(schema_contents(schemas@), renames@, i as int),
            all_stores == stores_after_renames(store_contents(stores@), renames@, i as int),
            all_cold == cold_after_renames(cold_contents(cold@), renames@, i as int),
        decreases renames@.len() - i,
    {
        let rename: &PendingTableRename = &renames[i];
        let ghost old_name = rename.old_name@;
        let ghost new_name = rename.new_name@;
        let ghost stores0 = stores@;
        let ghost schemas0 = schemas@;
        let ghost cold0 = cold@;
        let mut store: Store = stores.remove(rename.old_name.as_str()).unwrap();
        assert(store_contents(stores0)[old_name] == store@);
        rename_table(&mut store.schema, rename.new_name.as_str());
        let mut schema: Schema = schemas.remove(rename.old_name.as_str()).unwrap();
        assert(schema_contents(schemas0)[old_name] == schema@);
        rename_table(&mut schema, rename.new_name.as_str());
        proof {
            lemma_store_remove(stores0, old_name);
            lemma_store_insert(stores@, new_name, store);
            lemma_contents_remove(schemas0, old_name);
            lemma_contents_insert(schemas@, new_name, schema);
            lemma_cold_remove(cold0, old_name);
        }
        stores.insert(rename.new_name.clone(), store);
        schemas.insert(rename.new_name.clone(), schema);
        assert(stores@.dom() =~= stores0.dom().remove(old_name).insert(new_name));
        assert(schemas@.dom() =~= schemas0.dom().remove(old_name).insert(new_name));
        match cold.remove(rename.old_name.as_str()) {
            Some(owner) => {
                proof {
                    lemma_cold_insert(cold@, new_name, owner);
                    assert(cold_contents(cold0)[old_name] == owner@);
                }
                cold.insert(rename.new_name.clone(), owner);
            },
            None => {
                assert(cold0.remove(old_name) =~= cold0);
            },
        }
        i = i + 1;
    }
}

/// Whether a schema has a foreign key to a table.
pub open spec fn refers_to(schema: SchemaView, parent: Seq<char>) -> bool {
    exists|i: int|
        0 <= i < schema.foreign_keys.len() && (#[trigger] schema.foreign_keys[i]).referenced_table
            == parent
}

/// A catalog whose foreign keys to a vanished table are gone.
pub open spec fn stripped_catalog(catalog: Catalog, parent: Seq<char>) -> Catalog {
    catalog.map_values(|schema: SchemaView| stripped_schema(schema, parent))
}

/// A store takes the stripped schema of its table, where that one changed.
pub open spec fn stripped_store(
    stores: StoreMap,
    catalog: Catalog,
    parent: Seq<char>,
    name: Seq<char>,
) -> StoreView {
    if catalog.dom().contains(name) && refers_to(catalog[name], parent) {
        StoreView { schema: stripped_schema(catalog[name], parent), ..stores[name] }
    } else {
        stores[name]
    }
}

pub open spec fn stripped_stores(stores: StoreMap, catalog: Catalog, parent: Seq<char>) -> StoreMap {
    Map::new(
        |name: Seq<char>| stores.dom().contains(name),
        |name: Seq<char>| stripped_store(stores, catalog, parent, name),
    )
}

/// Removes foreign keys to a vanished table from every other schema, and
/// from the stores of the tables it changed.
pub fn strip_fk_references(
    schemas: &mut NameMap<Schema>,
    stores: &mut NameMap<Store>,
    parent_table_lower: &str,
)
    requires
        old(schemas).wf(),
        old(stores).wf(),
    ensures
        final(schemas).wf(),
        final(stores).wf(),
        schema_contents(final(schemas)@) == stripped_catalog(
            schema_contents(old(schemas)@),
            parent_table_lower@,
        ),
        store_contents(final(stores)@) == stripped_stores(
            store_contents(old(stores)@),
            schema_contents(old(schemas)@),
            parent_table_lower@,
        ),
{
    let ghost listed = schemas.listed();
    let ghost parent = parent_table_lower@;
    let ghost catalog = schema_contents(schemas@);
    let ghost stores0 = store_contents(stores@);
    let mut out: NameMap<Schema> = NameMap::new();
    let mut k: usize = 0;
    while k < schemas.len()
        invariant
            0 <= k <= listed.len(),
            schemas.wf(),
            stores.wf(),
            out.wf(),
            listed == schemas.listed(),
            parent == parent_table_lower@,
            catalog == schema_contents(association(listed)),
            distinct_names(listed),
            stores@.dom() =~= stores0.dom(),
            forall|name: Seq<char>| #[trigger]
                out@.dom().contains(name) <==> exists|i: int|
                    i < k && #[trigger] named_at(listed, name, i),
            forall|name: Seq<char>| #[trigger]
                out@.dom().contains(name) ==> out@[name]@ == stripped_schema(
                    catalog[name],
                    parent,
                ),
            forall|name: Seq<char>| #[trigger]
                stores@.dom().contains(name) ==> stores@[name]@ == if out@.dom().contains(name) {
                    stripped_store(stores0, catalog, parent, name)
                } else {
                    stores0[name]
                },
        decreases listed.len() - k,
    {
        let name: String = schemas.name_at(k).clone();
        let mut schema: Schema = schemas.value_at(k).duplicate();
        proof {
            lemma_entry(listed, k as int);
            assert(named_at(listed, name@, k as int));
            assert(catalog[name@] == schema@);
            if out@.dom().contains(name@) {
                let i = choose|i: int| i < k && #[trigger] named_at(listed, name@, i);
                assert(listed[i].0@ != listed[k as int].0@);
            }
        }
        let ghost out0 = out@;
        let ghost before = stores@;
        let changed: bool = strip_parent(&mut schema, parent_table_lower);
        assert(changed == refers_to(catalog[name@], parent));
        if changed {
            match stores.remove(name.as_str()) {
                Some(store) => {
                    let next: Store = Store { schema: schema.duplicate(), indexes: store.indexes };
                    stores.insert(name.clone(), next);
                    assert(next@ == stripped_store(stores0, catalog, parent, name@));
                },
                None => {
                    assert(before.remove(name@) =~= before);
                },
            }
        }
        out.insert(name, schema);
        proof {
            assert forall|n: Seq<char>| #[trigger]
                out@.dom().contains(n) <==> exists|i: int|
                    i < k + 1 && #[trigger] named_at(listed, n, i) by {
                if out@.dom().contains(n) {
                    if n == name@ {
                        assert(named_at(listed, n, k as int));
                    } else {
                        assert(out0.dom().contains(n));
                    }
                }
                if exists|i: int| i < k + 1 && #[trigger] named_at(listed, n, i) {
                    let i = choose|i: int| i < k + 1 && #[trigger] named_at(listed, n, i);
                    if i < k {
                        assert(out0.dom().contains(n));
                    }
                }
            }
        }
        k = k + 1;
    }
    proof {
        assert(schema_contents(out@) =~= stripped_catalog(catalog, parent)) by {
            assert forall|n: Seq<char>| out@.dom().contains(n) <==> catalog.dom().contains(n) by {
                if catalog.dom().contains(n) {
                    let i = choose|i: int| named_at(listed, n, i);
                    assert(named_at(listed, n, i));
                }
                if out@.dom().contains(n) {
                    let i = choose|i: int| i < k && #[trigger] named_at(listed, n, i);
                    lemma_entry(listed, i);
                }
            }
        }
        assert(store_contents(stores@) =~= stripped_stores(stores0, catalog, parent)) by {
            assert forall|n: Seq<char>| stores@.dom().contains(n) implies stores@[n]@
                == stripped_store(stores0, catalog, parent, n) by {
                if catalog.dom().contains(n) {
                    let i = choose|i: int| named_at(listed, n, i);
                    assert(named_at(listed, n, i));
                    assert(out@.dom().contains(n));
                }
            }
        }
    }
    *schemas = out;
}

pub open spec fn schemas_after_drops(
    schemas: Catalog,
    dropped: Seq<DroppedTable>,
    i: int,
) -> Catalog
    decreases dropped.len() - i,
{
    if i < 0 || i >= dropped.len() {
        schemas
    } else {
        let name = dropped[i].name@;
        schemas_after_drops(stripped_catalog(schemas.remove(name), name), dropped, i + 1)
    }
}

pub open spec fn stores_after_drops(
    stores: StoreMap,
    schemas: Catalog,
    dropped: Seq<DroppedTable>,
    i: int,
) -> StoreMap
    decreases dropped.len() - i,
{
    if i < 0 || i >= dropped.len() {
        stores
    } else {
        let name = dropped[i].name@;
        stores_after_drops(
            stripped_stores(stores, schemas.remove(name), name).remove(name),
            stripped_catalog(schemas.remove(name), name),
            dropped,
            i + 1,
        )
    }
}

pub open spec fn cold_after_drops(
    cold: ColdMap,
    dropped: Seq<DroppedTable>,
    i: int,
) -> ColdMap
    decreases dropped.len() - i,
{
    if i < 0 || i >= dropped.len() {
        cold
    } else {
        cold_after_drops(cold.remove(dropped[i].name@), dropped, i + 1)
    }
}

/// Removes dropped tables, and every foreign key to them.
pub fn publish_drops(
    schemas: &mut NameMap<Schema>,
    stores: &mut NameMap<Store>,
    cold: &mut NameMap<ColdOwner>,
    dropped: &Vec<DroppedTable>,
)
    requires
        old(schemas).wf(),
        old(stores).wf(),
        old(cold).wf(),
        cold_wf(old(cold)@),
    ensures
        final(schemas).wf(),
        final(stores).wf(),
        final(cold).wf(),
        cold_wf(final(cold)@),
        schema_contents(final(schemas)@) == schemas_after_drops(
            schema_contents(old(schemas)@),
            dropped@,
            0,
        ),
        store_contents(final(stores)@) == stores_after_drops(
            store_contents(old(stores)@),
            schema_contents(old(schemas)@),
            dropped@,
            0,
        ),
        cold_contents(final(cold)@) == cold_after_drops(
            cold_contents(old(cold)@),
            dropped@,
            0,
        ),
{
    let ghost all_schemas = schemas_after_drops(schema_contents(schemas@), dropped@, 0);
    let ghost all_stores = stores_after_drops(
        store_contents(stores@),
        schema_contents(schemas@),
        dropped@,
        0,
    );
    let ghost all_cold = cold_after_drops(cold_contents(cold@), dropped@, 0);
    let mut i: usize = 0;
    while i < dropped.len()
        invariant
            0 <= i <= dropped@.len(),
            schemas.wf(),
            stores.wf(),
            cold.wf(),
            cold_wf(cold@),
            all_schemas == schemas_after_drops(schema_contents(schemas@), dropped@, i as int),
            all_stores == stores_after_drops(
                store_contents(stores@),
                schema_contents(schemas@),
                dropped@,
                i as int,
            ),
            all_cold == cold_after_drops(cold_contents(cold@), dropped@, i as int),
        decreases dropped@.len() - i,
    {
        let name: &str = dropped[i].name.as_str();
        proof {
            lemma_contents_remove(schemas@, name@);
            lemma_cold_remove(cold@, name@);
        }
        schemas.remove(name);
        strip_fk_references(schemas, stores, name);
        proof {
            lemma_store_remove(stores@, name@);
        }
        stores.remove(name);
        cold.remove(name);
        i = i + 1;
    }
}

pub open spec fn bound_store_error(table_name: Seq<char>) -> ErrorView {
    ErrorView::WalDurabilityUncertain(
        "committed catalog table '"@ + table_name + "' has no runtime storage; recovery required"@,
    )
}

/// Stores and catalog after the typed schemas from `i` on were installed, up
/// to the first without a store, and that failure.
pub open spec fn with_bound_schemas(
    stores: StoreMap,
    schemas: Catalog,
    bound: Seq<Schema>,
    i: int,
) -> (StoreMap, Catalog, Option<ErrorView>)
    decreases bound.len() - i,
{
    if i < 0 || i >= bound.len() {
        (stores, schemas, None)
    } else {
        let lower = bound[i].table_name_lower@;
        if !stores.dom().contains(lower) {
            (stores, schemas, Some(bound_store_error(bound[i].table_name@)))
        } else {
            with_bound_schemas(
                stores.insert(lower, StoreView { schema: bound[i]@, ..stores[lower] }),
                schemas.insert(lower, bound[i]@),
                bound,
                i + 1,
            )
        }
    }
}

pub open spec fn view_contents(map: Map<Seq<char>, ViewDefinition>) -> Map<Seq<char>, ViewContent> {
    map.map_values(|view: ViewDefinition| view@)
}

/// Collects the typed views under their names.
pub open spec fn with_bound_views(
    views: Map<Seq<char>, ViewContent>,
    bound: Seq<ViewDefinition>,
    i: int,
) -> Result<Map<Seq<char>, ViewContent>, ErrorView>
    decreases bound.len() - i,
{
    if i < 0 || i >= bound.len() {
        Ok(views)
    } else if views.dom().contains(bound[i].name@) {
        Err(
            ErrorView::WalDurabilityUncertain(
                "committed catalog produced duplicate runtime views; recovery required"@,
            ),
        )
    } else {
        with_bound_views(views.insert(bound[i].name@, bound[i]@), bound, i + 1)
    }
}

/// Runtime owners that the typed catalog takes over.
#[verifier::ext_equal]
pub struct InstalledCatalog {
    pub stores: StoreMap,
    pub schemas: Catalog,
    pub views: Map<Seq<char>, ViewContent>,
}

/// What the typed catalog leaves behind, and what ended it early. Stores get
/// their schemas one by one; the catalog follows when all have theirs, and the
/// views come last.
pub open spec fn installed_catalog(before: InstalledCatalog, bound: BoundCatalog) -> (
    InstalledCatalog,
    Option<ErrorView>,
) {
    if before.stores.dom().len() != bound.schemas@.len() {
        (
            before,
            Some(
                ErrorView::WalDurabilityUncertain(
                    "committed catalog and runtime storage contain different table sets; recovery required"@,
                ),
            ),
        )
    } else {
        let (stores, schemas, fault) = with_bound_schemas(
            before.stores,
            Map::empty(),
            bound.schemas@,
            0,
        );
        match fault {
            Some(e) => (InstalledCatalog { stores, ..before }, Some(e)),
            None => match with_bound_views(Map::empty(), bound.views@, 0) {
                Err(e) => (InstalledCatalog { stores, schemas, ..before }, Some(e)),
                Ok(views) => (InstalledCatalog { stores, schemas, views }, None),
            },
        }
    }
}

fn install_schemas(stores: &mut NameMap<Store>, bound: &Vec<Schema>) -> (r: Result<
    NameMap<Schema>,
    Error,
>)
    requires
        old(stores).wf(),
    ensures
        final(stores).wf(),
        ({
            let (next, catalog, fault) = with_bound_schemas(
                store_contents(old(stores)@),
                Map::empty(),
                bound@,
                0,
            );
            &&& next == store_contents(final(stores)@)
            &&& fault == refusal(r)
            &&& r matches Ok(schemas) ==> schemas.wf() && catalog == schema_contents(schemas@)
        }),
{
    let ghost all = with_bound_schemas(store_contents(stores@), Map::empty(), bound@, 0);
    let mut schemas: NameMap<Schema> = NameMap::new();
    assert(schema_contents(schemas@) =~= Map::<Seq<char>, SchemaView>::empty());
    let mut i: usize = 0;
    while i < bound.len()
        invariant
            0 <= i <= bound@.len(),
            stores.wf(),
            schemas.wf(),
            all == with_bound_schemas(store_contents(old(stores)@), Map::empty(), bound@, 0),
            all == with_bound_schemas(
                store_contents(stores@),
                schema_contents(schemas@),
                bound@,
                i as int,
            ),
        decreases bound@.len() - i,
    {
        let lower: String = bound[i].table_name_lower.clone();
        let ghost before = stores@;
        let store: Store = match stores.remove(lower.as_str()) {
            Some(store) => store,
            None => {
                return Err(
                    Error::WalDurabilityUncertain {
                        detail: String::from_str("committed catalog table '").concat(
                            bound[i].table_name.as_str(),
                        ).concat("' has no runtime storage; recovery required"),
                    },
                );
            },
        };
        assert(store_contents(before)[lower@] == store@);
        let next: Store = Store { schema: bound[i].duplicate(), indexes: store.indexes };
        let schema: Schema = bound[i].duplicate();
        proof {
            lemma_store_remove(before, lower@);
            lemma_store_insert(stores@, lower@, next);
            lemma_contents_insert(schemas@, lower@, schema);
            assert(store_contents(before).remove(lower@).insert(lower@, next@) =~= store_contents(
                before,
            ).insert(lower@, next@));
        }
        stores.insert(lower.clone(), next);
        schemas.insert(lower, schema);
        i = i + 1;
    }
    Ok(schemas)
}

fn install_views(bound: &Vec<ViewDefinition>) -> (r: Result<NameMap<ViewDefinition>, Error>)
    ensures
        match r {
            Ok(views) => views.wf() && with_bound_views(Map::empty(), bound@, 0) == Ok::<
                Map<Seq<char>, ViewContent>,
                ErrorView,
            >(view_contents(views@)),
            Err(e) => with_bound_views(Map::empty(), bound@, 0) == Err::<
                Map<Seq<char>, ViewContent>,
                ErrorView,
            >(e@),
        },
{
    let ghost all = with_bound_views(Map::empty(), bound@, 0);
    let mut views: NameMap<ViewDefinition> = NameMap::new();
    assert(view_contents(views@) =~= Map::<Seq<char>, ViewContent>::empty());
    let mut i: usize = 0;
    while i < bound.len()
        invariant
            0 <= i <= bound@.len(),
            views.wf(),
            all == with_bound_views(Map::empty(), bound@, 0),
            all == with_bound_views(view_contents(views@), bound@, i as int),
        decreases bound@.len() - i,
    {
        let view: ViewDefinition = bound[i].duplicate();
        let ghost before = views@;
        assert(view_contents(before.insert(bound@[i as int].name@, view)) =~= view_contents(
            before,
        ).insert(bound@[i as int].name@, view@));
        if views.insert(bound[i].name.clone(), view).is_some() {
            return Err(
                Error::WalDurabilityUncertain {
                    detail: String::from_str(
                        "committed catalog produced duplicate runtime views; recovery required",
                    ),
                },
            );
        }
        i = i + 1;
    }
    Ok(views)
}

pub open spec fn catalog_owners(
    schemas: NameMap<Schema>,
    stores: NameMap<Store>,
    views: NameMap<ViewDefinition>,
) -> InstalledCatalog {
    InstalledCatalog {
        stores: store_contents(stores@),
        schemas: schema_contents(schemas@),
        views: view_contents(views@),
    }
}

/// Makes the typed catalog the schema authority of the runtime stores.
pub fn install_bound_catalog(
    schemas: &mut NameMap<Schema>,
    stores: &mut NameMap<Store>,
    views: &mut NameMap<ViewDefinition>,
    bound: &BoundCatalog,
) -> (r: Result<(), Error>)
    requires
        old(schemas).wf(),
        old(stores).wf(),
        old(views).wf(),
    ensures
        final(schemas).wf(),
        final(stores).wf(),
        final(views).wf(),
        installed_catalog(catalog_owners(*old(schemas), *old(stores), *old(views)), *bound) == (
            catalog_owners(*final(schemas), *final(stores), *final(views)),
            refusal(r),
        ),
{
    assert(store_contents(stores@).dom() =~= stores@.dom());
    if stores.len() != bound.schemas.len() {
        return Err(
            Error::WalDurabilityUncertain {
                detail: String::from_str(
                    "committed catalog and runtime storage contain different table sets; recovery required",
                ),
            },
        );
    }
    match install_schemas(stores, &bound.schemas) {
        Ok(installed) => {
            *schemas = installed;
        },
        Err(error) => {
            return Err(error);
        },
    }
    match install_views(&bound.views) {
        Ok(installed) => {
            *views = installed;
            Ok(())
        },
        Err(error) => Err(error),
    }
}

} // verus!
