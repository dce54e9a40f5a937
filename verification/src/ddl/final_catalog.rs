//! The catalog that a transaction would leave behind.
use crate::ddl::prepare::change_name;
use crate::ddl::prepare::is_final_order;
use crate::ddl::prepare::is_last_change;
use crate::ddl::request::creates;
use crate::ddl::request::drops;
use crate::ddl::request::is_created;
use crate::ddl::request::is_dropped;
use crate::ddl::request::schema_contents;
use crate::ddl::request::CreatedTable;
use crate::ddl::request::DroppedTable;
use crate::ddl::request::PendingSchemaChange;
use crate::ddl::request::PendingTable;
use crate::ddl::request::PendingTableRename;
use crate::error::first_refusal;
use crate::error::refusal;
use crate::error::Error;
use crate::error::ErrorView;
use crate::model::views;
use crate::model::Model;
use crate::names::association;
use crate::names::distinct_names;
use crate::names::lemma_entry;
use crate::names::named_at;
use crate::names::NameMap;
use crate::schema::column_position;
use crate::schema::data_type_label;
use crate::schema::lemma_filter_push;
use crate::schema::rename_schema_fk_target;
use crate::schema::retargeted_schema;
use crate::schema::ForeignKeyConstraint;
use crate::schema::ForeignKeyView;
use crate::schema::Schema;
use crate::schema::SchemaColumn;
use crate::schema::SchemaView;
use crate::text::eq_ignore_ascii_case;
use crate::text::lowercase_text;
use crate::text::same_ignoring_ascii_case;
use crate::text::same_text;
use crate::text::signed_decimal;
use crate::text::signed_decimal_digits;
use crate::text::to_lowercase;
use vstd::prelude::*;
use vstd::string::StringExecFns;

verus! {

pub type Catalog = Map<Seq<char>, SchemaView>;

/// The schemas that are kept, each changed by a function of its name.
pub open spec fn reworked(
    catalog: Catalog,
    keep: spec_fn(Seq<char>) -> bool,
    change: spec_fn(Seq<char>, SchemaView) -> SchemaView,
) -> Catalog {
    Map::new(
        |name: Seq<char>| catalog.dom().contains(name) && keep(name),
        |name: Seq<char>| change(name, catalog[name]),
    )
}

/// The first `k` entries of a listing have been reworked into a map.
spec fn reworked_upto(
    listed: Seq<(String, Schema)>,
    out: Map<Seq<char>, Schema>,
    keep: spec_fn(Seq<char>) -> bool,
    change: spec_fn(Seq<char>, SchemaView) -> SchemaView,
    k: int,
) -> bool {
    &&& forall|i: int|
        0 <= i < k && keep((#[trigger] listed[i]).0@) ==> out.dom().contains(listed[i].0@)
            && out[listed[i].0@]@ == change(listed[i].0@, listed[i].1@)
    &&& forall|name: Seq<char>| #[trigger]
        out.dom().contains(name) ==> keep(name) && exists|i: int|
            i < k && #[trigger] named_at(listed, name, i)
}

proof fn lemma_reworked_step(
    listed: Seq<(String, Schema)>,
    before: Map<Seq<char>, Schema>,
    after: Map<Seq<char>, Schema>,
    keep: spec_fn(Seq<char>) -> bool,
    change: spec_fn(Seq<char>, SchemaView) -> SchemaView,
    k: int,
    schema: Schema,
)
    requires
        distinct_names(listed),
        0 <= k < listed.len(),
        reworked_upto(listed, before, keep, change, k),
        if keep(listed[k].0@) {
            &&& after == before.insert(listed[k].0@, schema)
            &&& schema@ == change(listed[k].0@, listed[k].1@)
        } else {
            after == before
        },
    ensures
        reworked_upto(listed, after, keep, change, k + 1),
{
    assert forall|i: int| 0 <= i < k + 1 && keep((#[trigger] listed[i]).0@) implies after.dom().contains(
        listed[i].0@,
    ) && after[listed[i].0@]@ == change(listed[i].0@, listed[i].1@) by {
        if i < k {
            assert(listed[i].0@ != listed[k].0@);
        }
    }
    assert forall|name: Seq<char>| #[trigger] after.dom().contains(name) implies keep(name)
        && exists|i: int| i < k + 1 && #[trigger] named_at(listed, name, i) by {
        if before.dom().contains(name) {
            let i = choose|i: int| i < k && #[trigger] named_at(listed, name, i);
            assert(named_at(listed, name, i));
        } else {
            assert(named_at(listed, name, k));
        }
    }
}

proof fn lemma_reworked(
    listed: Seq<(String, Schema)>,
    out: Map<Seq<char>, Schema>,
    keep: spec_fn(Seq<char>) -> bool,
    change: spec_fn(Seq<char>, SchemaView) -> SchemaView,
)
    requires
        distinct_names(listed),
        reworked_upto(listed, out, keep, change, listed.len() as int),
    ensures
        schema_contents(out) == reworked(schema_contents(association(listed)), keep, change),
{
    let source = schema_contents(association(listed));
    let target = reworked(source, keep, change);
    assert forall|name: Seq<char>| schema_contents(out).dom().contains(name)
        <==> target.dom().contains(name) by {
        if out.dom().contains(name) {
            let i = choose|i: int| i < listed.len() && #[trigger] named_at(listed, name, i);
            lemma_entry(listed, i);
        }
        if target.dom().contains(name) {
            let i = choose|i: int| named_at(listed, name, i);
            assert(keep(listed[i].0@));
        }
    }
    assert forall|name: Seq<char>| target.dom().contains(name) implies schema_contents(out)[name]
        == target[name] by {
        let i = choose|i: int| named_at(listed, name, i);
        lemma_entry(listed, i);
        assert(keep(listed[i].0@));
    }
    assert(schema_contents(out) =~= target);
}

/// Replacing one schema replaces its content.
pub proof fn lemma_contents_insert(map: Map<Seq<char>, Schema>, name: Seq<char>, schema: Schema)
    ensures
        schema_contents(map.insert(name, schema)) == schema_contents(map).insert(name, schema@),
{
    assert(schema_contents(map.insert(name, schema)) =~= schema_contents(map).insert(
        name,
        schema@,
    ));
}

pub proof fn lemma_contents_remove(map: Map<Seq<char>, Schema>, name: Seq<char>)
    ensures
        schema_contents(map.remove(name)) == schema_contents(map).remove(name),
{
    assert(schema_contents(map.remove(name)) =~= schema_contents(map).remove(name));
}

pub open spec fn unchanged() -> spec_fn(Seq<char>, SchemaView) -> SchemaView {
    |name: Seq<char>, schema: SchemaView| schema
}

pub open spec fn everything() -> spec_fn(Seq<char>) -> bool {
    |name: Seq<char>| true
}

pub open spec fn not_dropped(dropped: Seq<DroppedTable>) -> spec_fn(Seq<char>) -> bool {
    |name: Seq<char>| !drops(dropped, name)
}

/// The published catalog without the dropped tables.
pub fn surviving_tables(schemas: &NameMap<Schema>, dropped: &Vec<DroppedTable>) -> (out: NameMap<
    Schema,
>)
    requires
        schemas.wf(),
    ensures
        out.wf(),
        schema_contents(out@) == reworked(
            schema_contents(schemas@),
            not_dropped(dropped@),
            unchanged(),
        ),
{
    let ghost listed = schemas.listed();
    let ghost keep = not_dropped(dropped@);
    let ghost change = unchanged();
    let mut out: NameMap<Schema> = NameMap::new();
    let mut k: usize = 0;
    while k < schemas.len()
        invariant
            0 <= k <= listed.len(),
            schemas.wf(),
            listed == schemas.listed(),
            keep == not_dropped(dropped@),
            change == unchanged(),
            out.wf(),
            reworked_upto(listed, out@, keep, change, k as int),
        decreases listed.len() - k,
    {
        let ghost before = out@;
        let schema: Schema = schemas.value_at(k).duplicate();
        let ghost copied = schema;
        if !is_dropped(dropped, schemas.name_at(k).as_str()) {
            out.insert(schemas.name_at(k).clone(), schema);
        }
        proof {
            assert(keep(listed[k as int].0@) == !drops(dropped@, listed[k as int].0@));
            lemma_reworked_step(listed, before, out@, keep, change, k as int, copied);
        }
        k = k + 1;
    }
    proof {
        lemma_reworked(listed, out@, keep, change);
    }
    out
}

/// Adds the created tables.
pub open spec fn with_created(
    catalog: Catalog,
    pending: Map<Seq<char>, PendingTable>,
    txn_id: i64,
    created: Seq<CreatedTable>,
    i: int,
) -> Result<Catalog, ErrorView>
    decreases created.len() - i,
{
    if i < 0 || i >= created.len() {
        Ok(catalog)
    } else {
        let lower = lowercase_text(created[i].name@);
        if !pending.dom().contains(lower) || pending[lower].owner_txn_id != txn_id {
            Err(
                ErrorView::Internal(
                    "transaction "@ + signed_decimal_digits(txn_id as int)
                        + " lost pending table '"@ + created[i].name@
                        + "' during catalog validation"@,
                ),
            )
        } else {
            with_created(
                catalog.insert(lower, pending[lower].schema@),
                pending,
                txn_id,
                created,
                i + 1,
            )
        }
    }
}

fn add_created(
    catalog: &mut NameMap<Schema>,
    pending: &NameMap<PendingTable>,
    txn_id: i64,
    created: &Vec<CreatedTable>,
) -> (r: Result<(), Error>)
    requires
        old(catalog).wf(),
        pending.wf(),
    ensures
        final(catalog).wf(),
        match r {
            Ok(_) => with_created(
                schema_contents(old(catalog)@),
                pending@,
                txn_id,
                created@,
                0,
            ) == Ok::<Catalog, ErrorView>(schema_contents(final(catalog)@)),
            Err(e) => with_created(
                schema_contents(old(catalog)@),
                pending@,
                txn_id,
                created@,
                0,
            ) == Err::<Catalog, ErrorView>(e@),
        },
{
    let ghost all = with_created(schema_contents(catalog@), pending@, txn_id, created@, 0);
    let mut i: usize = 0;
    while i < created.len()
        invariant
            0 <= i <= created@.len(),
            catalog.wf(),
            pending.wf(),
            all == with_created(schema_contents(old(catalog)@), pending@, txn_id, created@, 0),
            all == with_created(schema_contents(catalog@), pending@, txn_id, created@, i as int),
        decreases created@.len() - i,
    {
        let lower: String = to_lowercase(created[i].name.as_str());
        let found: Option<Schema> = match pending.get(lower.as_str()) {
            Some(table) => if table.owner_txn_id == txn_id {
                Some(table.schema.duplicate())
            } else {
                None
            },
            None => None,
        };
        match found {
            None => {
                return Err(
                    Error::Internal {
                        message: String::from_str("transaction ").concat(
                            signed_decimal(txn_id).as_str(),
                        ).concat(" lost pending table '").concat(created[i].name.as_str()).concat(
                            "' during catalog validation",
                        ),
                    },
                );
            },
            Some(schema) => {
                proof {
                    lemma_contents_insert(catalog@, lower@, schema);
                }
                catalog.insert(lower, schema);
            },
        }
        i = i + 1;
    }
    Ok(())
}

/// Installs the final schemas.
pub open spec fn with_changes(
    catalog: Catalog,
    changes: Seq<PendingSchemaChange>,
    order: Seq<usize>,
    i: int,
) -> Catalog
    decreases order.len() - i,
{
    if i < 0 || i >= order.len() {
        catalog
    } else {
        let change = changes[order[i] as int];
        with_changes(
            catalog.insert(lowercase_text(change.table_name@), change.schema@),
            changes,
            order,
            i + 1,
        )
    }
}

fn add_changes(
    catalog: &mut NameMap<Schema>,
    changes: &Vec<PendingSchemaChange>,
    order: &Vec<usize>,
)
    requires
        old(catalog).wf(),
        is_final_order(changes@, order@),
    ensures
        final(catalog).wf(),
        schema_contents(final(catalog)@) == with_changes(
            schema_contents(old(catalog)@),
            changes@,
            order@,
            0,
        ),
{
    let ghost all = with_changes(schema_contents(catalog@), changes@, order@, 0);
    let mut i: usize = 0;
    while i < order.len()
        invariant
            0 <= i <= order@.len(),
            catalog.wf(),
            is_final_order(changes@, order@),
            all == with_changes(schema_contents(catalog@), changes@, order@, i as int),
        decreases order@.len() - i,
    {
        assert(is_last_change(changes@, order@[i as int] as int));
        let change: &PendingSchemaChange = &changes[order[i]];
        let schema: Schema = change.schema.duplicate();
        proof {
            lemma_contents_insert(catalog@, lowercase_text(change.table_name@), schema);
        }
        catalog.insert(to_lowercase(change.table_name.as_str()), schema);
        i = i + 1;
    }
}

/// A schema under its table's new name.
pub open spec fn renamed_schema(schema: SchemaView, new_name: Seq<char>) -> SchemaView {
    SchemaView { table_name: new_name, table_name_lower: lowercase_text(new_name), ..schema }
}

/// Gives a schema its table's new name.
pub fn rename_table(schema: &mut Schema, new_name: &str)
    ensures
        final(schema)@ == renamed_schema(old(schema)@, new_name@),
{
    schema.table_name = String::from_str(new_name);
    schema.table_name_lower = to_lowercase(new_name);
}

pub open spec fn retargeting(old_name: Seq<char>, new_name: Seq<char>) -> spec_fn(
    Seq<char>,
    SchemaView,
) -> SchemaView {
    |name: Seq<char>, schema: SchemaView| retargeted_schema(schema, old_name, new_name)
}

/// Renames tables one after the other; foreign keys follow.
pub open spec fn with_renames(catalog: Catalog, renames: Seq<PendingTableRename>, i: int) -> Result<
    Catalog,
    ErrorView,
>
    decreases renames.len() - i,
{
    if i < 0 || i >= renames.len() {
        Ok(catalog)
    } else {
        let old_name = renames[i].old_name@;
        let new_name = renames[i].new_name@;
        if !catalog.dom().contains(old_name) {
            Err(ErrorView::TableNotFound(old_name))
        } else {
            let others = reworked(
                catalog.remove(old_name),
                everything(),
                retargeting(old_name, new_name),
            );
            let renamed = retargeted_schema(
                renamed_schema(catalog[old_name], new_name),
                old_name,
                new_name,
            );
            if others.dom().contains(new_name) {
                Err(ErrorView::TableAlreadyExists(new_name))
            } else {
                with_renames(others.insert(new_name, renamed), renames, i + 1)
            }
        }
    }
}

fn retarget_all(catalog: &NameMap<Schema>, old_name: &str, new_name: &str) -> (out: NameMap<Schema>)
    requires
        catalog.wf(),
    ensures
        out.wf(),
        schema_contents(out@) == reworked(
            schema_contents(catalog@),
            everything(),
            retargeting(old_name@, new_name@),
        ),
{
    let ghost listed = catalog.listed();
    let ghost keep = everything();
    let ghost change = retargeting(old_name@, new_name@);
    let mut out: NameMap<Schema> = NameMap::new();
    let mut k: usize = 0;
    while k < catalog.len()
        invariant
            0 <= k <= listed.len(),
            catalog.wf(),
            listed == catalog.listed(),
            keep == everything(),
            change == retargeting(old_name@, new_name@),
            out.wf(),
            reworked_upto(listed, out@, keep, change, k as int),
        decreases listed.len() - k,
    {
        let ghost before = out@;
        let mut schema: Schema = catalog.value_at(k).duplicate();
        rename_schema_fk_target(&mut schema, old_name, new_name);
        let ghost copied = schema;
        out.insert(catalog.name_at(k).clone(), schema);
        proof {
            assert(keep(listed[k as int].0@));
            assert(change(listed[k as int].0@, listed[k as int].1@) == retargeted_schema(
                listed[k as int].1@,
                old_name@,
                new_name@,
            ));
            lemma_reworked_step(listed, before, out@, keep, change, k as int, copied);
        }
        k = k + 1;
    }
    proof {
        lemma_reworked(listed, out@, keep, change);
    }
    out
}

fn apply_renames(catalog: NameMap<Schema>, renames: &Vec<PendingTableRename>) -> (r: Result<
    NameMap<Schema>,
    Error,
>)
    requires
        catalog.wf(),
    ensures
        match r {
            Ok(out) => out.wf() && with_renames(schema_contents(catalog@), renames@, 0) == Ok::<
                Catalog,
                ErrorView,
            >(schema_contents(out@)),
            Err(e) => with_renames(schema_contents(catalog@), renames@, 0) == Err::<
                Catalog,
                ErrorView,
            >(e@),
        },
{
    let ghost all = with_renames(schema_contents(catalog@), renames@, 0);
    let mut current: NameMap<Schema> = catalog;
    let mut i: usize = 0;
    while i < renames.len()
        invariant
            0 <= i <= renames@.len(),
            current.wf(),
            all == with_renames(schema_contents(catalog@), renames@, 0),
            all == with_renames(schema_contents(current@), renames@, i as int),
        decreases renames@.len() - i,
    {
        let rename: &PendingTableRename = &renames[i];
        let ghost before = current@;
        proof {
            lemma_contents_remove(before, rename.old_name@);
        }
        let mut renamed: Schema = match current.remove(rename.old_name.as_str()) {
            Some(schema) => schema,
            None => {
                return Err(Error::TableNotFound(rename.old_name.clone()));
            },
        };
        rename_table(&mut renamed, rename.new_name.as_str());
        let mut others: NameMap<Schema> = retarget_all(
            &current,
            rename.old_name.as_str(),
            rename.new_name.as_str(),
        );
        rename_schema_fk_target(
            &mut renamed,
            rename.old_name.as_str(),
            rename.new_name.as_str(),
        );
        let ghost rest = others@;
        proof {
            lemma_contents_insert(rest, rename.new_name@, renamed);
            assert(schema_contents(rest).dom().contains(rename.new_name@) == rest.dom().contains(
                rename.new_name@,
            ));
        }
        if others.insert(rename.new_name.clone(), renamed).is_some() {
            return Err(Error::TableAlreadyExists(rename.new_name.clone()));
        }
        current = others;
        i = i + 1;
    }
    Ok(current)
}

pub open spec fn keeps_key(dropped: Seq<DroppedTable>) -> spec_fn(ForeignKeyView) -> bool {
    |fk: ForeignKeyView| !drops(dropped, fk.referenced_table)
}

/// A schema without foreign keys to dropped tables.
pub open spec fn without_keys_to(schema: SchemaView, dropped: Seq<DroppedTable>) -> SchemaView {
    SchemaView { foreign_keys: schema.foreign_keys.filter(keeps_key(dropped)), ..schema }
}

/// A surviving table silently loses its foreign keys to dropped tables; a
/// created one keeps them, and is refused for them later.
pub open spec fn losing_keys(created: Seq<CreatedTable>, dropped: Seq<DroppedTable>) -> spec_fn(
    Seq<char>,
    SchemaView,
) -> SchemaView {
    |name: Seq<char>, schema: SchemaView|
        if creates(created, name) {
            schema
        } else {
            without_keys_to(schema, dropped)
        }
}

fn drop_keys(schema: &mut Schema, dropped: &Vec<DroppedTable>)
    ensures
        final(schema)@ == without_keys_to(old(schema)@, dropped@),
{
    let ghost before = schema@;
    let ghost keep = keeps_key(dropped@);
    let mut kept: Vec<ForeignKeyConstraint> = Vec::new();
    let mut i: usize = 0;
    assert(views(kept@) =~= before.foreign_keys.take(0).filter(keep)) by {
        reveal(Seq::filter);
    }
    while i < schema.foreign_keys.len()
        invariant
            0 <= i <= schema.foreign_keys@.len(),
            schema@ == before,
            before.foreign_keys.len() == schema.foreign_keys@.len(),
            keep == keeps_key(dropped@),
            views(kept@) == before.foreign_keys.take(i as int).filter(keep),
        decreases schema.foreign_keys@.len() - i,
    {
        proof {
            lemma_filter_push(before.foreign_keys, i as int, keep);
            assert(before.foreign_keys[i as int] == schema.foreign_keys@[i as int]@);
        }
        if !is_dropped(dropped, schema.foreign_keys[i].referenced_table.as_str()) {
            let ghost earlier_kept = kept@;
            let fk: ForeignKeyConstraint = schema.foreign_keys[i].duplicate();
            kept.push(fk);
            assert(views(kept@) =~= views(earlier_kept).push(fk@));
        }
        i = i + 1;
    }
    assert(before.foreign_keys.take(i as int) =~= before.foreign_keys);
    schema.foreign_keys = kept;
}

/// Removes foreign keys to dropped tables from surviving tables.
pub fn lose_keys(
    catalog: &NameMap<Schema>,
    created: &Vec<CreatedTable>,
    dropped: &Vec<DroppedTable>,
) -> (out: NameMap<Schema>)
    requires
        catalog.wf(),
    ensures
        out.wf(),
        schema_contents(out@) == reworked(
            schema_contents(catalog@),
            everything(),
            losing_keys(created@, dropped@),
        ),
{
    let ghost listed = catalog.listed();
    let ghost keep = everything();
    let ghost change = losing_keys(created@, dropped@);
    let mut out: NameMap<Schema> = NameMap::new();
    let mut k: usize = 0;
    while k < catalog.len()
        invariant
            0 <= k <= listed.len(),
            catalog.wf(),
            listed == catalog.listed(),
            keep == everything(),
            change == losing_keys(created@, dropped@),
            out.wf(),
            reworked_upto(listed, out@, keep, change, k as int),
        decreases listed.len() - k,
    {
        let ghost before = out@;
        let mut schema: Schema = catalog.value_at(k).duplicate();
        if !is_created(created, catalog.name_at(k).as_str()) {
            drop_keys(&mut schema, dropped);
        }
        let ghost copied = schema;
        out.insert(catalog.name_at(k).clone(), schema);
        proof {
            assert(keep(listed[k as int].0@));
            lemma_reworked_step(listed, before, out@, keep, change, k as int, copied);
        }
        k = k + 1;
    }
    proof {
        lemma_reworked(listed, out@, keep, change);
    }
    out
}

/// The complete catalog that a transaction would publish.
pub open spec fn final_catalog(
    schemas: Catalog,
    pending: Map<Seq<char>, PendingTable>,
    txn_id: i64,
    created: Seq<CreatedTable>,
    dropped: Seq<DroppedTable>,
    changes: Seq<PendingSchemaChange>,
    order: Seq<usize>,
    renames: Seq<PendingTableRename>,
) -> Result<Catalog, ErrorView> {
    match with_created(
        reworked(schemas, not_dropped(dropped), unchanged()),
        pending,
        txn_id,
        created,
        0,
    ) {
        Err(e) => Err(e),
        Ok(all) => match with_renames(with_changes(all, changes, order, 0), renames, 0) {
            Err(e) => Err(e),
            Ok(renamed) => Ok(reworked(renamed, everything(), losing_keys(created, dropped))),
        },
    }
}

/// The complete catalog that a transaction would publish.
pub fn build_final_catalog(
    schemas: &NameMap<Schema>,
    pending: &NameMap<PendingTable>,
    txn_id: i64,
    created: &Vec<CreatedTable>,
    dropped: &Vec<DroppedTable>,
    changes: &Vec<PendingSchemaChange>,
    order: &Vec<usize>,
    renames: &Vec<PendingTableRename>,
) -> (r: Result<NameMap<Schema>, Error>)
    requires
        schemas.wf(),
        pending.wf(),
        is_final_order(changes@, order@),
    ensures
        match r {
            Ok(catalog) => catalog.wf() && final_catalog(
                schema_contents(schemas@),
                pending@,
                txn_id,
                created@,
                dropped@,
                changes@,
                order@,
                renames@,
            ) == Ok::<Catalog, ErrorView>(schema_contents(catalog@)),
            Err(e) => final_catalog(
                schema_contents(schemas@),
                pending@,
                txn_id,
                created@,
                dropped@,
                changes@,
                order@,
                renames@,
            ) == Err::<Catalog, ErrorView>(e@),
        },
{
    let mut catalog: NameMap<Schema> = surviving_tables(schemas, dropped);
    match add_created(&mut catalog, pending, txn_id, created) {
        Ok(_) => {},
        Err(error) => {
            return Err(error);
        },
    }
    add_changes(&mut catalog, changes, order);
    match apply_renames(catalog, renames) {
        Ok(renamed) => Ok(lose_keys(&renamed, created, dropped)),
        Err(error) => Err(error),
    }
}

/// Every foreign key names a column of its own table.
pub open spec fn keys_in_range(schema: SchemaView) -> bool {
    forall|i: int|
        0 <= i < schema.foreign_keys.len() ==> (#[trigger] schema.foreign_keys[i]).column_index
            < schema.columns.len()
}

pub open spec fn all_keys_in_range(catalog: Catalog) -> bool {
    forall|name: Seq<char>| #[trigger]
        catalog.dom().contains(name) ==> keys_in_range(catalog[name])
}

/// Whether a foreign key finds its parent column, of the same type.
pub open spec fn key_refusal(catalog: Catalog, schema: SchemaView, i: int) -> Option<ErrorView> {
    let fk = schema.foreign_keys[i];
    let key = "foreign key '"@ + schema.table_name + "."@;
    if !catalog.dom().contains(fk.referenced_table) {
        Some(
            ErrorView::InvalidArgument(
                key + fk.column_name + "' references table '"@ + fk.referenced_table
                    + "' absent from the final transaction catalog"@,
            ),
        )
    } else {
        let parent = catalog[fk.referenced_table];
        match column_position(parent, fk.referenced_column) {
            None => Some(
                ErrorView::InvalidArgument(
                    key + fk.column_name + "' references missing column '"@ + fk.referenced_table
                        + "."@ + fk.referenced_column + "'"@,
                ),
            ),
            Some(p) => {
                let child_column = schema.columns[fk.column_index as int];
                let parent_column = parent.columns[p];
                if child_column.data_type != parent_column.data_type {
                    Some(
                        ErrorView::InvalidArgument(
                            key + child_column.name + "' type "@ + data_type_label(
                                child_column.data_type,
                            ) + " does not match '"@ + parent.table_name + "."@
                                + parent_column.name + "' type "@ + data_type_label(
                                parent_column.data_type,
                            ),
                        ),
                    )
                } else {
                    None
                }
            },
        }
    }
}

pub open spec fn key_check(catalog: Catalog, schema: SchemaView) -> spec_fn(
    int,
) -> Option<ErrorView> {
    |i: int| key_refusal(catalog, schema, i)
}

/// Whether all foreign keys of one table find their parents.
pub open spec fn keys_refusal(catalog: Catalog, schema: SchemaView) -> Option<ErrorView> {
    first_refusal(0, schema.foreign_keys.len() as int, key_check(catalog, schema))
}

pub open spec fn catalog_keys_check(
    catalog: Catalog,
    listed: Seq<(String, Schema)>,
) -> spec_fn(int) -> Option<ErrorView> {
    |i: int| keys_refusal(catalog, listed[i].1@)
}

fn check_keys(catalog: &NameMap<Schema>, schema: &Schema) -> (r: Result<(), Error>)
    requires
        catalog.wf(),
        keys_in_range(schema@),
    ensures
        refusal(r) == keys_refusal(schema_contents(catalog@), schema@),
{
    let ghost contents = schema_contents(catalog@);
    let ghost n = schema@.foreign_keys.len() as int;
    let ghost check = key_check(contents, schema@);
    let mut i: usize = 0;
    while i < schema.foreign_keys.len()
        invariant
            0 <= i <= schema.foreign_keys@.len() == n,
            n == schema@.foreign_keys.len(),
            catalog.wf(),
            keys_in_range(schema@),
            contents == schema_contents(catalog@),
            check == key_check(contents, schema@),
            first_refusal(0, n, check) == first_refusal(i as int, n, check),
        decreases schema.foreign_keys@.len() - i,
    {
        let fk: &ForeignKeyConstraint = &schema.foreign_keys[i];
        assert(schema@.foreign_keys[i as int] == fk@);
        assert(check(i as int) == key_refusal(contents, schema@, i as int));
        let key: String = String::from_str("foreign key '").concat(
            schema.table_name.as_str(),
        ).concat(".");
        match catalog.get(fk.referenced_table.as_str()) {
            None => {
                return Err(
                    Error::InvalidArgument(
                        key.concat(fk.column_name.as_str()).concat("' references table '").concat(
                            fk.referenced_table.as_str(),
                        ).concat("' absent from the final transaction catalog"),
                    ),
                );
            },
            Some(parent) => {
                assert(contents[fk.referenced_table@] == parent@);
                match parent.get_column_index(fk.referenced_column.as_str()) {
                    None => {
                        return Err(
                            Error::InvalidArgument(
                                key.concat(fk.column_name.as_str()).concat(
                                    "' references missing column '",
                                ).concat(fk.referenced_table.as_str()).concat(".").concat(
                                    fk.referenced_column.as_str(),
                                ).concat("'"),
                            ),
                        );
                    },
                    Some(p) => {
                        let child_column: &SchemaColumn = &schema.columns[fk.column_index];
                        let parent_column: &SchemaColumn = &parent.columns[p];
                        assert(schema@.columns[fk.column_index as int] == child_column@);
                        assert(parent@.columns[p as int] == parent_column@);
                        if child_column.data_type != parent_column.data_type {
                            return Err(
                                Error::InvalidArgument(
                                    key.concat(child_column.name.as_str()).concat("' type ").concat(
                                        child_column.data_type.name(),
                                    ).concat(" does not match '").concat(
                                        parent.table_name.as_str(),
                                    ).concat(".").concat(parent_column.name.as_str()).concat(
                                        "' type ",
                                    ).concat(parent_column.data_type.name()),
                                ),
                            );
                        }
                    },
                }
            },
        }
        i = i + 1;
    }
    Ok(())
}

/// Every foreign key of the catalog finds its parent column, of the same
/// type.
pub fn check_catalog_keys(catalog: &NameMap<Schema>) -> (r: Result<(), Error>)
    requires
        catalog.wf(),
        all_keys_in_range(schema_contents(catalog@)),
    ensures
        refusal(r) == first_refusal(
            0,
            catalog.listed().len() as int,
            catalog_keys_check(schema_contents(catalog@), catalog.listed()),
        ),
{
    let ghost contents = schema_contents(catalog@);
    let ghost listed = catalog.listed();
    let ghost n = listed.len() as int;
    let ghost check = catalog_keys_check(contents, listed);
    let mut i: usize = 0;
    while i < catalog.len()
        invariant
            0 <= i <= listed.len() == n,
            listed == catalog.listed(),
            catalog.wf(),
            contents == schema_contents(catalog@),
            all_keys_in_range(contents),
            check == catalog_keys_check(contents, listed),
            first_refusal(0, n, check) == first_refusal(i as int, n, check),
        decreases n - i,
    {
        proof {
            lemma_entry(listed, i as int);
            assert(contents.dom().contains(listed[i as int].0@));
        }
        let r: Result<(), Error> = check_keys(catalog, catalog.value_at(i));
        assert(check(i as int) == refusal(r));
        if r.is_err() {
            return r;
        }
        i = i + 1;
    }
    Ok(())
}

/// Normalized names of a list of schemas.
pub open spec fn bound_names(schemas: Seq<Schema>) -> Set<Seq<char>> {
    Set::new(
        |name: Seq<char>|
            exists|i: int| 0 <= i < schemas.len() && (#[trigger] schemas[i]).table_name_lower@ == name,
    )
}

/// The typed catalog and the physical one hold the same tables.
pub open spec fn table_sets_refusal(catalog: Catalog, bound: Seq<Schema>) -> Option<ErrorView> {
    if bound_names(bound) != catalog.dom() {
        Some(
            ErrorView::Internal(
                "typed catalog and physical DDL resolve to different table sets"@,
            ),
        )
    } else {
        None
    }
}

/// The typed catalog and the physical one hold the same tables.
pub fn check_table_sets(catalog: &NameMap<Schema>, bound: &Vec<Schema>) -> (r: Result<(), Error>)
    requires
        catalog.wf(),
    ensures
        refusal(r) == table_sets_refusal(schema_contents(catalog@), bound@),
{
    let ghost names = bound_names(bound@);
    let ghost tables = schema_contents(catalog@).dom();
    let mut i: usize = 0;
    while i < bound.len()
        invariant
            0 <= i <= bound@.len(),
            catalog.wf(),
            tables == schema_contents(catalog@).dom(),
            names == bound_names(bound@),
            forall|k: int|
                0 <= k < i ==> tables.contains((#[trigger] bound@[k]).table_name_lower@),
        decreases bound@.len() - i,
    {
        if !catalog.contains_key(bound[i].table_name_lower.as_str()) {
            assert(names.contains(bound@[i as int].table_name_lower@));
            assert(!tables.contains(bound@[i as int].table_name_lower@));
            return Err(
                Error::internal("typed catalog and physical DDL resolve to different table sets"),
            );
        }
        i = i + 1;
    }
    let mut k: usize = 0;
    while k < catalog.len()
        invariant
            0 <= k <= catalog.listed().len(),
            catalog.wf(),
            tables == schema_contents(catalog@).dom(),
            names == bound_names(bound@),
            forall|j: int|
                0 <= j < bound@.len() ==> tables.contains(
                    (#[trigger] bound@[j]).table_name_lower@,
                ),
            forall|j: int| 0 <= j < k ==> names.contains((#[trigger] catalog.listed()[j]).0@),
        decreases catalog.listed().len() - k,
    {
        let name: &String = catalog.name_at(k);
        let mut found: bool = false;
        let mut j: usize = 0;
        while j < bound.len()
            invariant
                0 <= j <= bound@.len(),
                found == exists|m: int|
                    0 <= m < j && (#[trigger] bound@[m]).table_name_lower@ == name@,
            decreases bound@.len() - j,
        {
            if same_text(bound[j].table_name_lower.as_str(), name.as_str()) {
                found = true;
            }
            j = j + 1;
        }
        if !found {
            proof {
                lemma_entry(catalog.listed(), k as int);
                assert(tables.contains(name@));
                assert(!names.contains(name@));
            }
            return Err(
                Error::internal("typed catalog and physical DDL resolve to different table sets"),
            );
        }
        k = k + 1;
    }
    proof {
        assert forall|name: Seq<char>| names.contains(name) <==> tables.contains(name) by {
            if names.contains(name) {
                let m = choose|m: int|
                    0 <= m < bound@.len() && (#[trigger] bound@[m]).table_name_lower@ == name;
                assert(tables.contains(bound@[m].table_name_lower@));
            }
            if tables.contains(name) {
                let m = choose|m: int| named_at(catalog.listed(), name, m);
                assert(names.contains(catalog.listed()[m].0@));
            }
        }
        assert(names =~= tables);
    }
    Ok(())
}

/// Whether a staged schema changes more than the place of stored values.
pub open spec fn is_logical_at(
    changes: Seq<PendingSchemaChange>,
    name: Seq<char>,
    i: int,
) -> bool {
    &&& 0 <= i < changes.len()
    &&& same_ignoring_ascii_case(changes[i].table_name@, name)
    &&& changes[i].physical_transition is None
}

pub open spec fn changes_logically(changes: Seq<PendingSchemaChange>, name: Seq<char>) -> bool {
    exists|i: int| #[trigger] is_logical_at(changes, name, i)
}

fn is_logical(changes: &Vec<PendingSchemaChange>, name: &str) -> (r: bool)
    ensures
        r == changes_logically(changes@, name@),
{
    let mut i: usize = 0;
    while i < changes.len()
        invariant
            0 <= i <= changes@.len(),
            forall|k: int| k < i ==> !#[trigger] is_logical_at(changes@, name@, k),
        decreases changes@.len() - i,
    {
        if eq_ignore_ascii_case(changes[i].table_name.as_str(), name)
            && changes[i].physical_transition.is_none() {
            assert(is_logical_at(changes@, name@, i as int));
            return true;
        }
        i = i + 1;
    }
    false
}

/// Tables whose rows have to be checked against a changed schema. A column
/// that is only dropped or renamed leaves every other value as it was.
pub open spec fn changed_rows(
    catalog: Catalog,
    changes: Seq<PendingSchemaChange>,
    order: Seq<usize>,
    i: int,
) -> Catalog
    decreases order.len() - i,
{
    if i < 0 || i >= order.len() {
        catalog
    } else {
        let change = changes[order[i] as int];
        let next = if changes_logically(changes, change.table_name@) {
            catalog.insert(lowercase_text(change.table_name@), change.schema@)
        } else {
            catalog
        };
        changed_rows(next, changes, order, i + 1)
    }
}

/// Whether one of the final schemas belongs to a table.
pub open spec fn changes_at(
    changes: Seq<PendingSchemaChange>,
    order: Seq<usize>,
    name: Seq<char>,
    a: int,
) -> bool {
    0 <= a < order.len() && change_name(changes, order[a] as int) == name
}

/// The schema that the transaction itself sees for a table it created.
pub open spec fn private_schema(
    pending: PendingTable,
    changes: Seq<PendingSchemaChange>,
    order: Seq<usize>,
    name: Seq<char>,
) -> SchemaView {
    if exists|a: int| #[trigger] changes_at(changes, order, name, a) {
        changes[order[choose|a: int| #[trigger] changes_at(changes, order, name, a)] as int].schema@
    } else {
        pending.schema@
    }
}

/// Created tables are checked too.
pub open spec fn created_rows(
    catalog: Catalog,
    pending: Map<Seq<char>, PendingTable>,
    created: Seq<CreatedTable>,
    changes: Seq<PendingSchemaChange>,
    order: Seq<usize>,
    i: int,
) -> Catalog
    decreases created.len() - i,
{
    if i < 0 || i >= created.len() {
        catalog
    } else {
        let lower = lowercase_text(created[i].name@);
        let next = if catalog.dom().contains(lower) || !pending.dom().contains(lower) {
            catalog
        } else {
            catalog.insert(lower, private_schema(pending[lower], changes, order, lower))
        };
        created_rows(next, pending, created, changes, order, i + 1)
    }
}

/// The tables whose rows are checked before commit, with the schema they are
/// checked against.
pub open spec fn row_checks(
    pending: Map<Seq<char>, PendingTable>,
    created: Seq<CreatedTable>,
    dropped: Seq<DroppedTable>,
    changes: Seq<PendingSchemaChange>,
    order: Seq<usize>,
) -> Catalog {
    reworked(
        created_rows(
            changed_rows(Map::empty(), changes, order, 0),
            pending,
            created,
            changes,
            order,
            0,
        ),
        everything(),
        losing_keys(created, dropped),
    )
}

fn find_change(changes: &Vec<PendingSchemaChange>, order: &Vec<usize>, name: &str) -> (r: Option<
    usize,
>)
    requires
        is_final_order(changes@, order@),
    ensures
        match r {
            Some(i) => i < changes@.len() && exists|a: int| #[trigger]
                changes_at(changes@, order@, name@, a) && forall|b: int| #[trigger]
                changes_at(changes@, order@, name@, b) ==> order@[b] == i,
            None => forall|a: int| !#[trigger] changes_at(changes@, order@, name@, a),
        },
{
    let mut a: usize = 0;
    while a < order.len()
        invariant
            0 <= a <= order@.len(),
            is_final_order(changes@, order@),
            forall|b: int| b < a ==> !#[trigger] changes_at(changes@, order@, name@, b),
        decreases order@.len() - a,
    {
        assert(is_last_change(changes@, order@[a as int] as int));
        let lower: String = to_lowercase(changes[order[a]].table_name.as_str());
        if same_text(lower.as_str(), name) {
            proof {
                assert(changes_at(changes@, order@, name@, a as int));
                assert forall|b: int| #[trigger]
                    changes_at(changes@, order@, name@, b) implies order@[b] == order@[a as int] by {
                    if b > a {
                        crate::text::lemma_text_before_total(name@, name@);
                        assert(crate::text::text_before(
                            change_name(changes@, order@[a as int] as int),
                            change_name(changes@, order@[b] as int),
                        ));
                    }
                }
            }
            return Some(order[a]);
        }
        a = a + 1;
    }
    None
}

/// The tables whose rows are checked before commit, with the schema they are
/// checked against.
pub fn plan_row_checks(
    pending: &NameMap<PendingTable>,
    created: &Vec<CreatedTable>,
    dropped: &Vec<DroppedTable>,
    changes: &Vec<PendingSchemaChange>,
    order: &Vec<usize>,
) -> (out: NameMap<Schema>)
    requires
        pending.wf(),
        is_final_order(changes@, order@),
    ensures
        out.wf(),
        schema_contents(out@) == row_checks(pending@, created@, dropped@, changes@, order@),
{
    let mut plan: NameMap<Schema> = NameMap::new();
    assert(schema_contents(plan@) =~= Map::<Seq<char>, SchemaView>::empty());
    let ghost first = changed_rows(Map::empty(), changes@, order@, 0);
    let mut i: usize = 0;
    while i < order.len()
        invariant
            0 <= i <= order@.len(),
            plan.wf(),
            is_final_order(changes@, order@),
            first == changed_rows(schema_contents(plan@), changes@, order@, i as int),
        decreases order@.len() - i,
    {
        assert(is_last_change(changes@, order@[i as int] as int));
        let change: &PendingSchemaChange = &changes[order[i]];
        if is_logical(changes, change.table_name.as_str()) {
            let schema: Schema = change.schema.duplicate();
            proof {
                lemma_contents_insert(plan@, lowercase_text(change.table_name@), schema);
            }
            plan.insert(to_lowercase(change.table_name.as_str()), schema);
        }
        i = i + 1;
    }
    let ghost second = created_rows(first, pending@, created@, changes@, order@, 0);
    let mut k: usize = 0;
    while k < created.len()
        invariant
            0 <= k <= created@.len(),
            plan.wf(),
            pending.wf(),
            is_final_order(changes@, order@),
            second == created_rows(
                schema_contents(plan@),
                pending@,
                created@,
                changes@,
                order@,
                k as int,
            ),
        decreases created@.len() - k,
    {
        let lower: String = to_lowercase(created[k].name.as_str());
        if !plan.contains_key(lower.as_str()) {
            match pending.get(lower.as_str()) {
                Some(table) => {
                    let schema: Schema = match find_change(changes, order, lower.as_str()) {
                        Some(c) => changes[c].schema.duplicate(),
                        None => table.schema.duplicate(),
                    };
                    proof {
                        lemma_contents_insert(plan@, lower@, schema);
                        assert(schema@ == private_schema(*table, changes@, order@, lower@));
                    }
                    plan.insert(lower, schema);
                },
                None => {},
            }
        }
        k = k + 1;
    }
    lose_keys(&plan, created, dropped)
}

} // verus!
