//! What the catalog at the end of a transaction is.
use super::final_catalog::catalog_keys_check;
use super::final_catalog::final_catalog;
use super::final_catalog::table_sets_refusal;
use super::final_catalog::with_changes;
use super::final_catalog::with_created;
use super::final_catalog::with_renames;
use super::final_catalog::Catalog;
use super::prepare::change_name;
use super::prepare::is_final_order;
use super::prepare::is_last_change;
use super::request::CreatedTable;
use super::request::DroppedTable;
use super::request::PendingSchemaChange;
use super::request::PendingTable;
use super::request::PendingTableRename;
use crate::error::first_refusal;
use crate::error::lemma_no_refusal;
use crate::schema::column_position;
use crate::schema::ForeignKeyView;
use crate::schema::Schema;
use crate::schema::SchemaView;
use crate::text::lowercase_text;
use vstd::prelude::*;

verus! {

/// The transaction drops the table of this name.
pub open spec fn is_dropped(dropped: Seq<DroppedTable>, name: Seq<char>) -> bool {
    exists|i: int| 0 <= i < dropped.len() && lowercase_text((#[trigger] dropped[i]).name@) == name
}

/// The transaction creates the table of this name.
pub open spec fn is_created(created: Seq<CreatedTable>, name: Seq<char>) -> bool {
    exists|i: int| 0 <= i < created.len() && lowercase_text((#[trigger] created[i]).name@) == name
}

proof fn lemma_named(dropped: Seq<DroppedTable>, created: Seq<CreatedTable>, name: Seq<char>)
    ensures
        super::request::drops(dropped, name) == is_dropped(dropped, name),
        super::request::creates(created, name) == is_created(created, name),
{
    if super::request::drops(dropped, name) {
        let i = choose|i: int| #[trigger] super::request::drops_at(dropped, name, i);
        assert(lowercase_text(dropped[i].name@) == name);
    }
    if is_dropped(dropped, name) {
        let i = choose|i: int|
            0 <= i < dropped.len() && lowercase_text((#[trigger] dropped[i]).name@) == name;
        assert(super::request::drops_at(dropped, name, i));
    }
    if super::request::creates(created, name) {
        let i = choose|i: int| #[trigger] super::request::creates_at(created, name, i);
        assert(lowercase_text(created[i].name@) == name);
    }
    if is_created(created, name) {
        let i = choose|i: int|
            0 <= i < created.len() && lowercase_text((#[trigger] created[i]).name@) == name;
        assert(super::request::creates_at(created, name, i));
    }
}

/// A schema is another with some of its foreign keys gone.
pub open spec fn is_same_but_keys(before: SchemaView, after: SchemaView) -> bool {
    after == (SchemaView { foreign_keys: after.foreign_keys, ..before })
}

proof fn lemma_with_created(
    catalog: Catalog,
    pending: Map<Seq<char>, PendingTable>,
    txn_id: i64,
    created: Seq<CreatedTable>,
    i: int,
    name: Seq<char>,
)
    requires
        0 <= i <= created.len(),
        with_created(catalog, pending, txn_id, created, i) is Ok,
    ensures
        ({
            let out = with_created(catalog, pending, txn_id, created, i)->Ok_0;
            let fresh = exists|k: int|
                i <= k < created.len() && lowercase_text((#[trigger] created[k]).name@) == name;
            &&& out.dom().contains(name) <==> fresh || catalog.dom().contains(name)
            &&& fresh ==> pending.dom().contains(name) && pending[name].owner_txn_id == txn_id
                && out[name] == pending[name].schema@
            &&& !fresh && catalog.dom().contains(name) ==> out[name] == catalog[name]
        }),
    decreases created.len() - i,
{
    if i < created.len() {
        let lower = lowercase_text(created[i].name@);
        lemma_with_created(
            catalog.insert(lower, pending[lower].schema@),
            pending,
            txn_id,
            created,
            i + 1,
            name,
        );
        if lower == name {
            assert(lowercase_text(created[i].name@) == name);
        }
    }
}

proof fn lemma_with_changes(
    catalog: Catalog,
    changes: Seq<PendingSchemaChange>,
    order: Seq<usize>,
    i: int,
    name: Seq<char>,
)
    requires
        0 <= i <= order.len(),
    ensures
        ({
            let out = with_changes(catalog, changes, order, i);
            &&& (forall|a: int|
                i <= a < order.len() ==> lowercase_text(
                    changes[#[trigger] order[a] as int].table_name@,
                ) != name) ==> out.dom().contains(name) == catalog.dom().contains(name) && (
            catalog.dom().contains(name) ==> out[name] == catalog[name])
            &&& forall|a: int|
                i <= a < order.len() && lowercase_text(
                    changes[#[trigger] order[a] as int].table_name@,
                ) == name && (forall|b: int|
                    a < b < order.len() ==> lowercase_text(
                        changes[#[trigger] order[b] as int].table_name@,
                    ) != name) ==> out.dom().contains(name) && out[name]
                    == changes[order[a] as int].schema@
        }),
    decreases order.len() - i,
{
    if i < order.len() {
        let change = changes[order[i] as int];
        let next = catalog.insert(lowercase_text(change.table_name@), change.schema@);
        lemma_with_changes(next, changes, order, i + 1, name);
    }
}

proof fn lemma_keys(
    schema: SchemaView,
    created: Seq<CreatedTable>,
    dropped: Seq<DroppedTable>,
    name: Seq<char>,
    fk: ForeignKeyView,
)
    ensures
        ({
            let after = super::final_catalog::losing_keys(created, dropped)(name, schema);
            &&& is_same_but_keys(schema, after)
            &&& is_created(created, name) ==> after == schema
            &&& !is_created(created, name) ==> (after.foreign_keys.contains(fk)
                <==> schema.foreign_keys.contains(fk) && !is_dropped(dropped, fk.referenced_table))
        }),
{
    broadcast use vstd::seq_lib::group_filter_ensures;

    lemma_named(dropped, created, name);
    lemma_named(dropped, created, fk.referenced_table);
    let keep = super::final_catalog::keeps_key(dropped);
    let kept = schema.foreign_keys.filter(keep);
    if kept.contains(fk) {
        schema.foreign_keys.lemma_filter_contains_rev(keep, fk);
        let k = choose|k: int| 0 <= k < kept.len() && kept[k] == fk;
        assert(keep(kept[k]));
    }
    if schema.foreign_keys.contains(fk) && keep(fk) {
        let k = choose|k: int| 0 <= k < schema.foreign_keys.len() && schema.foreign_keys[k] == fk;
        schema.foreign_keys.lemma_filter_contains(keep, k);
    }
}

/// Without renames, the catalog at the end has each table that was there and is
/// not dropped, and each that is created; each under the last schema staged for
/// it, else the reserved one, else its own. A table that is not created loses
/// its foreign keys to dropped tables and no others.
pub proof fn law_final_catalog_holds_the_survivors(
    schemas: Catalog,
    pending: Map<Seq<char>, PendingTable>,
    txn_id: i64,
    created: Seq<CreatedTable>,
    dropped: Seq<DroppedTable>,
    changes: Seq<PendingSchemaChange>,
    order: Seq<usize>,
    name: Seq<char>,
    last: int,
    fk: ForeignKeyView,
)
    requires
        is_final_order(changes, order),
        final_catalog(
            schemas,
            pending,
            txn_id,
            created,
            dropped,
            changes,
            order,
            Seq::empty(),
        ) is Ok,
    ensures
        ({
            let out = final_catalog(
                schemas,
                pending,
                txn_id,
                created,
                dropped,
                changes,
                order,
                Seq::empty(),
            )->Ok_0;
            let untouched = forall|i: int|
                0 <= i < changes.len() ==> lowercase_text((#[trigger] changes[i]).table_name@)
                    != name;
            &&& untouched ==> (out.dom().contains(name) <==> is_created(created, name) || (
            schemas.dom().contains(name) && !is_dropped(dropped, name)))
            &&& untouched && is_created(created, name) ==> out[name] == pending[name].schema@
            &&& untouched && !is_created(created, name) && out.dom().contains(name) ==> {
                &&& is_same_but_keys(schemas[name], out[name])
                &&& out[name].foreign_keys.contains(fk) <==> schemas[name].foreign_keys.contains(
                    fk,
                ) && !is_dropped(dropped, fk.referenced_table)
            }
            &&& 0 <= last < changes.len() && lowercase_text(changes[last].table_name@) == name && (
            forall|i: int|
                last < i < changes.len() ==> lowercase_text((#[trigger] changes[i]).table_name@)
                    != name) ==> {
                &&& out.dom().contains(name)
                &&& is_same_but_keys(changes[last].schema@, out[name])
                &&& is_created(created, name) ==> out[name] == changes[last].schema@
                &&& !is_created(created, name) ==> (out[name].foreign_keys.contains(fk)
                    <==> changes[last].schema@.foreign_keys.contains(fk) && !is_dropped(
                    dropped,
                    fk.referenced_table,
                ))
            }
        }),
{
    let start = super::final_catalog::reworked(
        schemas,
        super::final_catalog::not_dropped(dropped),
        super::final_catalog::unchanged(),
    );
    lemma_named(dropped, created, name);
    lemma_with_created(start, pending, txn_id, created, 0, name);
    let all = with_created(start, pending, txn_id, created, 0)->Ok_0;
    lemma_with_changes(all, changes, order, 0, name);
    let changed = with_changes(all, changes, order, 0);
    assert(with_renames(changed, Seq::empty(), 0) == Ok::<Catalog, crate::error::ErrorView>(
        changed,
    ));
    lemma_keys(changed[name], created, dropped, name, fk);
    if forall|i: int|
        0 <= i < changes.len() ==> lowercase_text((#[trigger] changes[i]).table_name@) != name {
        assert forall|a: int| 0 <= a < order.len() implies lowercase_text(
            changes[#[trigger] order[a] as int].table_name@,
        ) != name by {
            assert(is_last_change(changes, order[a] as int));
        }
    }
    if 0 <= last < changes.len() && lowercase_text(changes[last].table_name@) == name && (forall|
        i: int,
    |
        last < i < changes.len() ==> lowercase_text((#[trigger] changes[i]).table_name@) != name) {
        assert(change_name(changes, last) == name);
        assert(is_last_change(changes, last)) by {
            assert forall|k: int| last < k < changes.len() implies #[trigger] change_name(
                changes,
                k,
            ) != name by {
                assert(lowercase_text(changes[k].table_name@) != name);
            }
        }
        let a = choose|a: int| 0 <= a < order.len() && #[trigger] order[a] == last;
        assert forall|b: int| a < b < order.len() implies lowercase_text(
            changes[#[trigger] order[b] as int].table_name@,
        ) != name by {
            let x = change_name(changes, order[a] as int);
            let y = change_name(changes, order[b] as int);
            assert(crate::text::text_before(x, y));
            crate::text::lemma_text_before_total(x, y);
            crate::text::lemma_text_before_total(x, x);
        }
    }
}

/// A rename moves a table to its new name alone, and every foreign key of the
/// catalog that referred to it refers to the new name.
pub proof fn law_rename_takes_references_along(
    catalog: Catalog,
    rename: PendingTableRename,
    name: Seq<char>,
    k: int,
)
    requires
        rename.old_name@ != rename.new_name@,
        with_renames(catalog, seq![rename], 0) is Ok,
    ensures
        ({
            let out = with_renames(catalog, seq![rename], 0)->Ok_0;
            let old_name = rename.old_name@;
            let new_name = rename.new_name@;
            let source = if name == new_name {
                old_name
            } else {
                name
            };
            &&& catalog.dom().contains(old_name)
            &&& !catalog.dom().contains(new_name)
            &&& !out.dom().contains(old_name)
            &&& out.dom().contains(new_name)
            &&& name != old_name && name != new_name ==> out.dom().contains(name)
                == catalog.dom().contains(name)
            &&& out[new_name].table_name == new_name
            &&& out[new_name].table_name_lower == lowercase_text(new_name)
            &&& out.dom().contains(name) ==> {
                &&& name != new_name ==> out[name].table_name == catalog[name].table_name
                &&& out[name].columns == catalog[source].columns
                &&& out[name].catalog_id == catalog[source].catalog_id
                &&& out[name].foreign_keys.len() == catalog[source].foreign_keys.len()
                &&& 0 <= k < out[name].foreign_keys.len() ==> {
                    let was = catalog[source].foreign_keys[k];
                    let now = out[name].foreign_keys[k];
                    &&& now.column_index == was.column_index
                    &&& now.referenced_column == was.referenced_column
                    &&& crate::text::same_ignoring_ascii_case(was.referenced_table, old_name)
                        ==> now.referenced_table == new_name
                    &&& !crate::text::same_ignoring_ascii_case(was.referenced_table, old_name)
                        ==> now == was
                }
            }
        }),
{
    reveal_with_fuel(with_renames, 3);
}

/// A foreign key has its parent in the catalog, with a column of its type.
pub open spec fn resolves(catalog: Catalog, schema: SchemaView, fk: ForeignKeyView) -> bool {
    &&& catalog.dom().contains(fk.referenced_table)
    &&& column_position(catalog[fk.referenced_table], fk.referenced_column) is Some
    &&& schema.columns[fk.column_index as int].data_type
        == catalog[fk.referenced_table].columns[column_position(
        catalog[fk.referenced_table],
        fk.referenced_column,
    )->Some_0].data_type
}

/// A catalog is accepted only where every foreign key finds its parent table,
/// its column there, and the column's type agrees.
pub proof fn law_accepted_catalog_has_no_dangling_key(
    catalog: Catalog,
    listed: Seq<(String, Schema)>,
    i: int,
    k: int,
)
    requires
        first_refusal(0, listed.len() as int, catalog_keys_check(catalog, listed)) is None,
        0 <= i < listed.len(),
        0 <= k < listed[i].1@.foreign_keys.len(),
    ensures
        resolves(catalog, listed[i].1@, listed[i].1@.foreign_keys[k]),
{
    let outer = catalog_keys_check(catalog, listed);
    lemma_no_refusal(0, listed.len() as int, outer);
    assert(outer(i) is None);
    let schema = listed[i].1@;
    let inner = super::final_catalog::key_check(catalog, schema);
    lemma_no_refusal(0, schema.foreign_keys.len() as int, inner);
    assert(inner(k) is None);
}

/// The typed catalog is accepted exactly where it names the same tables.
pub proof fn law_typed_catalog_names_the_same_tables(catalog: Catalog, bound: Seq<Schema>)
    ensures
        table_sets_refusal(catalog, bound) is None <==> {
            &&& forall|i: int|
                0 <= i < bound.len() ==> catalog.dom().contains(
                    (#[trigger] bound[i]).table_name_lower@,
                )
            &&& forall|name: Seq<char>| #[trigger]
                catalog.dom().contains(name) ==> exists|i: int|
                    0 <= i < bound.len() && (#[trigger] bound[i]).table_name_lower@ == name
        },
{
    let names = super::final_catalog::bound_names(bound);
    if names == catalog.dom() {
        assert forall|i: int| 0 <= i < bound.len() implies catalog.dom().contains(
            (#[trigger] bound[i]).table_name_lower@,
        ) by {
            assert(names.contains(bound[i].table_name_lower@));
        }
        assert forall|name: Seq<char>| #[trigger]
            catalog.dom().contains(name) implies exists|i: int|
            0 <= i < bound.len() && (#[trigger] bound[i]).table_name_lower@ == name by {
            assert(names.contains(name));
        }
    } else {
        if (forall|i: int|
            0 <= i < bound.len() ==> catalog.dom().contains(
                (#[trigger] bound[i]).table_name_lower@,
            )) && (forall|name: Seq<char>| #[trigger]
            catalog.dom().contains(name) ==> exists|i: int|
                0 <= i < bound.len() && (#[trigger] bound[i]).table_name_lower@ == name) {
            assert(names =~= catalog.dom());
        }
    }
}

} // verus!
