//! What binding a catalog generation is for.
use super::binder::bound_index;
use super::binder::bound_indexes;
use super::binder::bound_table;
use super::binder::index_columns;
use super::binder::is_key_index;
use super::binder::with_checks;
use super::binder::IndexDefinitionView;
use super::constraints::constraint_order;
use super::constraints::table_constraints;
use super::constraints::with_constraint;
use super::constraints::with_constraints;
use super::constraints::BoundView;
use super::constraints::ColumnCheckView;
use super::foreign_keys::all_edges;
use super::foreign_keys::edges_to;
use super::foreign_keys::edges_to_any_case;
use super::foreign_keys::schema_edges;
use super::foreign_keys::ReferencingView;
use super::objects::bound_columns;
use super::objects::column_at;
use super::objects::key_columns;
use super::objects::BoundColumn;
use super::objects::CatalogAction;
use super::objects::ConstraintPayload;
use super::objects::Generation;
use super::objects::Object;
use super::objects::RuntimeColumnView;
use crate::publication::catalog::AccessMethod;
use crate::schema::column_position;
use crate::schema::ColumnView;
use crate::schema::DataType;
use crate::schema::ForeignKeyAction;
use crate::schema::ForeignKeyView;
use crate::schema::IndexType;
use crate::schema::SchemaView;
use crate::text::lowercase_text;
use crate::text::same_ignoring_ascii_case;
use vstd::prelude::*;

verus! {

/// A column is the one that an object describes, at its position. Its check is
/// another object's matter.
pub open spec fn is_column_of(
    g: Generation,
    keys: Seq<u128>,
    id: u128,
    ordinal: int,
    column: ColumnView,
) -> bool {
    &&& g.lookup(id) is Some
    &&& g.lookup(id)->Some_0.payload is Column
    &&& {
        let o = g.lookup(id)->Some_0;
        let c = o.payload->Column_0;
        &&& c.ordinal == ordinal
        &&& !c.is_generated
        &&& column.id == ordinal
        &&& column.name == o.display@
        &&& column.name_lower == lowercase_text(o.display@)
        &&& column.data_type == c.data_type
        &&& column.nullable == c.nullable
        &&& column.primary_key == keys.contains(id)
        &&& column.auto_increment == c.auto_increment
        &&& c.default_sql is None ==> column.default_expr is None
        &&& c.default_sql matches Some(sql) ==> column.default_expr == Some(sql@)
        &&& c.data_type == DataType::Vector ==> column.vector_dimensions == c.parameter_1 as u16
        &&& c.data_type == DataType::Decimal ==> column.decimal_precision == c.parameter_1 as u8
            && column.decimal_scale == c.parameter_2 as u8
    }
}

/// A column can be looked up by its identity.
pub open spec fn is_runtime_of(
    g: Generation,
    id: u128,
    ordinal: int,
    column: RuntimeColumnView,
) -> bool {
    &&& g.lookup(id) is Some
    &&& g.lookup(id)->Some_0.payload is Column
    &&& column.id == id
    &&& column.name == g.lookup(id)->Some_0.display@
    &&& column.ordinal == ordinal
    &&& column.data_type == g.lookup(id)->Some_0.payload->Column_0.data_type
}

proof fn lemma_columns(g: Generation, keys: Seq<u128>, ids: Seq<u128>, i: int)
    requires
        0 <= i <= ids.len() <= usize::MAX,
        bound_columns(g, keys, ids, i) is Ok,
    ensures
        ({
            let out = bound_columns(g, keys, ids, i)->Ok_0;
            &&& out.len() == ids.len() - i
            &&& forall|k: int|
                0 <= k < out.len() ==> {
                    &&& is_column_of(g, keys, ids[i + k], i + k, (#[trigger] out[k]).column)
                    &&& is_runtime_of(g, ids[i + k], i + k, out[k].runtime)
                }
        }),
    decreases ids.len() - i,
{
    if i < ids.len() {
        lemma_columns(g, keys, ids, i + 1);
        let out = bound_columns(g, keys, ids, i)->Ok_0;
        let rest = bound_columns(g, keys, ids, i + 1)->Ok_0;
        assert forall|k: int| 0 <= k < out.len() implies {
            &&& is_column_of(g, keys, ids[i + k], i + k, (#[trigger] out[k]).column)
            &&& is_runtime_of(g, ids[i + k], i + k, out[k].runtime)
        } by {
            if k > 0 {
                assert(out[k] == rest[k - 1]);
                assert(ids[i + 1 + (k - 1)] == ids[i + k]);
            }
        }
    }
}

proof fn lemma_checks(schema: SchemaView, checks: Seq<ColumnCheckView>, i: int)
    requires
        0 <= i <= checks.len(),
        with_checks(schema, checks, i) is Ok,
    ensures
        ({
            let out = with_checks(schema, checks, i)->Ok_0;
            &&& out.table_name == schema.table_name
            &&& out.table_name_lower == schema.table_name_lower
            &&& out.catalog_id == schema.catalog_id
            &&& out.foreign_keys == schema.foreign_keys
            &&& out.table_checks == schema.table_checks
            &&& out.constraints == schema.constraints
            &&& out.columns.len() == schema.columns.len()
            &&& forall|k: int|
                0 <= k < out.columns.len() ==> (ColumnView {
                    check_expr: None,
                    ..(#[trigger] out.columns[k])
                }) == (ColumnView { check_expr: None, ..schema.columns[k] })
        }),
    decreases checks.len() - i,
{
    if i < checks.len() {
        if let Some(at) = column_position(schema, checks[i].column) {
            let next = SchemaView {
                columns: schema.columns.update(
                    at,
                    ColumnView { check_expr: Some(checks[i].expression), ..schema.columns[at] },
                ),
                ..schema
            };
            lemma_checks(next, checks, i + 1);
            let out = with_checks(schema, checks, i)->Ok_0;
            assert forall|k: int| 0 <= k < out.columns.len() implies (ColumnView {
                check_expr: None,
                ..(#[trigger] out.columns[k])
            }) == (ColumnView { check_expr: None, ..schema.columns[k] }) by {
                assert((ColumnView { check_expr: None, ..next.columns[k] }) == (ColumnView {
                    check_expr: None,
                    ..schema.columns[k]
                }));
            }
        }
    }
}

/// A bound table has the name and the identity of its object and exactly its
/// columns, each at its place and as its object describes it; the columns of
/// the primary key, and no others, are marked so.
pub proof fn law_bound_table_has_its_columns(g: Generation, table: Object, k: int)
    requires
        table.payload is Table,
        bound_table(g, table) is Ok,
    ensures
        ({
            let t = bound_table(g, table)->Ok_0;
            let p = table.payload->Table_0;
            &&& t.schema.table_name == table.display@
            &&& t.schema.table_name_lower == lowercase_text(table.display@)
            &&& t.schema.catalog_id == table.id
            &&& t.schema.columns.len() == p.column_ids@.len()
            &&& t.indexes.len() == p.index_ids@.len()
            &&& key_columns(g, p) is Ok
            &&& 0 <= k < p.column_ids@.len() ==> is_column_of(
                g,
                key_columns(g, p)->Ok_0,
                p.column_ids@[k],
                k,
                t.schema.columns[k],
            )
        }),
{
    let p = table.payload->Table_0;
    let keys = key_columns(g, p)->Ok_0;
    assert(p.column_ids@.len() == p.column_ids.len());
    lemma_columns(g, keys, p.column_ids@, 0);
    let columns = bound_columns(g, keys, p.column_ids@, 0)->Ok_0;
    let runtime = columns.map_values(|c: BoundColumn| c.runtime);
    let bound = table_constraints(g, runtime, table.id, p.constraint_ids@)->Ok_0;
    let start = super::binder::assembled(table.display@, table.id, columns, bound);
    lemma_checks(start, bound.column_checks, 0);
    lemma_indexes(g, table.display@, runtime, p.index_ids@, 0);
    if 0 <= k < p.column_ids@.len() {
        let t = bound_table(g, table)->Ok_0;
        assert(start.columns[k] == columns[k].column);
        assert(is_column_of(g, keys, p.column_ids@[0 + k], 0 + k, columns[k].column));
        assert((ColumnView { check_expr: None, ..t.schema.columns[k] }) == (ColumnView {
            check_expr: None,
            ..start.columns[k]
        }));
    }
}

proof fn lemma_column_at(columns: Seq<RuntimeColumnView>, id: u128, i: int)
    requires
        0 <= i,
    ensures
        column_at(columns, id, i) matches Some(c) ==> c.id == id && columns.contains(c),
    decreases columns.len() - i,
{
    if i < columns.len() && columns[i].id != id {
        lemma_column_at(columns, id, i + 1);
    }
}

/// An index definition is the one that an object describes, on these columns.
pub open spec fn is_index_of(
    g: Generation,
    table_name: Seq<char>,
    columns: Seq<RuntimeColumnView>,
    id: u128,
    index: IndexDefinitionView,
) -> bool {
    &&& g.lookup(id) is Some
    &&& g.lookup(id)->Some_0.payload is Index
    &&& {
        let o = g.lookup(id)->Some_0;
        let p = o.payload->Index_0;
        let n = p.key_column_ids@.len();
        &&& index.name == o.display@
        &&& index.table_name == table_name
        &&& index.is_unique == p.unique
        &&& index.hnsw == p.hnsw
        &&& p.predicate_sql is None ==> index.partial_predicate is None
        &&& p.predicate_sql matches Some(sql) ==> index.partial_predicate == Some(sql@)
        &&& !p.has_expression && !p.has_includes
        &&& index.column_names.len() == n
        &&& index.column_ids.len() == n
        &&& index.data_types.len() == n
        &&& forall|k: int|
            0 <= k < n ==> is_key_column(columns, #[trigger] p.key_column_ids@[k], index, k)
        &&& is_key_index(g, o.id) ==> index.index_type == IndexType::PrimaryKey
        &&& !is_key_index(g, o.id) && n > 1 ==> index.index_type == IndexType::MultiColumn
            && p.access_method == AccessMethod::Btree
        &&& !is_key_index(g, o.id) && n <= 1 ==> match p.access_method {
            AccessMethod::Btree => index.index_type == IndexType::BTree,
            AccessMethod::Hash => index.index_type == IndexType::Hash,
            AccessMethod::Bitmap => index.index_type == IndexType::Bitmap,
            AccessMethod::Hnsw => index.index_type == IndexType::Hnsw,
        }
    }
}

/// A position of an index is on the column of an identity.
pub open spec fn is_key_column(
    columns: Seq<RuntimeColumnView>,
    id: u128,
    index: IndexDefinitionView,
    k: int,
) -> bool {
    exists|c: int|
        0 <= c < columns.len() && (#[trigger] columns[c]).id == id && index.column_names[k]
            == columns[c].name && index.column_ids[k] == columns[c].ordinal
            && index.data_types[k] == columns[c].data_type
}

proof fn lemma_index_columns(columns: Seq<RuntimeColumnView>, ids: Seq<u128>, i: int)
    requires
        0 <= i <= ids.len(),
        index_columns(columns, ids, i) is Ok,
    ensures
        ({
            let out = index_columns(columns, ids, i)->Ok_0;
            &&& out.len() == ids.len() - i
            &&& forall|k: int|
                0 <= k < out.len() ==> (#[trigger] out[k]).id == ids[i + k] && columns.contains(
                    out[k],
                ) && out[k].ordinal <= i32::MAX
        }),
    decreases ids.len() - i,
{
    if i < ids.len() {
        lemma_column_at(columns, ids[i], 0);
        lemma_index_columns(columns, ids, i + 1);
        let out = index_columns(columns, ids, i)->Ok_0;
        let rest = index_columns(columns, ids, i + 1)->Ok_0;
        assert forall|k: int| 0 <= k < out.len() implies (#[trigger] out[k]).id == ids[i + k]
            && columns.contains(out[k]) && out[k].ordinal <= i32::MAX by {
            if k > 0 {
                assert(out[k] == rest[k - 1]);
                assert(ids[i + 1 + (k - 1)] == ids[i + k]);
            }
        }
    }
}

proof fn lemma_index(
    g: Generation,
    table_name: Seq<char>,
    columns: Seq<RuntimeColumnView>,
    id: u128,
)
    requires
        bound_index(g, table_name, columns, id) is Ok,
    ensures
        is_index_of(
            g,
            table_name,
            columns,
            id,
            bound_index(g, table_name, columns, id)->Ok_0,
        ),
{
    let index = bound_index(g, table_name, columns, id)->Ok_0;
    let p = g.lookup(id)->Some_0.payload->Index_0;
    let ids = p.key_column_ids@;
    lemma_index_columns(columns, ids, 0);
    let keys = index_columns(columns, ids, 0)->Ok_0;
    assert forall|k: int| 0 <= k < ids.len() implies is_key_column(
        columns,
        #[trigger] ids[k],
        index,
        k,
    ) by {
        assert(keys[k].id == ids[0 + k]);
        let c = choose|c: int| 0 <= c < columns.len() && columns[c] == keys[k];
        assert(columns[c].id == ids[k]);
        assert(index.column_ids[k] == keys[k].ordinal as i32);
    }
}

proof fn lemma_indexes(
    g: Generation,
    table_name: Seq<char>,
    columns: Seq<RuntimeColumnView>,
    ids: Seq<u128>,
    i: int,
)
    requires
        0 <= i <= ids.len(),
        bound_indexes(g, table_name, columns, ids, i) is Ok,
    ensures
        ({
            let out = bound_indexes(g, table_name, columns, ids, i)->Ok_0;
            &&& out.len() == ids.len() - i
            &&& forall|k: int|
                0 <= k < out.len() ==> is_index_of(
                    g,
                    table_name,
                    columns,
                    ids[i + k],
                    #[trigger] out[k],
                )
        }),
    decreases ids.len() - i,
{
    if i < ids.len() {
        lemma_index(g, table_name, columns, ids[i]);
        lemma_indexes(g, table_name, columns, ids, i + 1);
        let out = bound_indexes(g, table_name, columns, ids, i)->Ok_0;
        let rest = bound_indexes(g, table_name, columns, ids, i + 1)->Ok_0;
        assert forall|k: int| 0 <= k < out.len() implies is_index_of(
            g,
            table_name,
            columns,
            ids[i + k],
            #[trigger] out[k],
        ) by {
            if k > 0 {
                assert(out[k] == rest[k - 1]);
                assert(ids[i + 1 + (k - 1)] == ids[i + k]);
            }
        }
    }
}

/// A bound table has exactly the indexes of its object, in their order, each
/// on the columns that its own object names and of the kind and uniqueness
/// that it says.
pub proof fn law_bound_table_has_its_indexes(g: Generation, table: Object, k: int)
    requires
        table.payload is Table,
        bound_table(g, table) is Ok,
        0 <= k < table.payload->Table_0.index_ids@.len(),
    ensures
        ({
            let t = bound_table(g, table)->Ok_0;
            let p = table.payload->Table_0;
            let columns = bound_columns(
                g,
                key_columns(g, p)->Ok_0,
                p.column_ids@,
                0,
            )->Ok_0.map_values(|c: BoundColumn| c.runtime);
            &&& t.indexes.len() == p.index_ids@.len()
            &&& is_index_of(g, table.display@, columns, p.index_ids@[k], t.indexes[k])
            &&& columns.len() == p.column_ids@.len()
            &&& forall|c: int|
                0 <= c < columns.len() ==> is_runtime_of(
                    g,
                    p.column_ids@[c],
                    c,
                    #[trigger] columns[c],
                )
        }),
{
    let p = table.payload->Table_0;
    let keys = key_columns(g, p)->Ok_0;
    assert(p.column_ids@.len() == p.column_ids.len());
    lemma_columns(g, keys, p.column_ids@, 0);
    let bound = bound_columns(g, keys, p.column_ids@, 0)->Ok_0;
    let columns = bound.map_values(|c: BoundColumn| c.runtime);
    lemma_indexes(g, table.display@, columns, p.index_ids@, 0);
    let t = bound_table(g, table)->Ok_0;
    assert(is_index_of(g, table.display@, columns, p.index_ids@[0 + k], t.indexes[k]));
    assert forall|c: int| 0 <= c < columns.len() implies is_runtime_of(
        g,
        p.column_ids@[c],
        c,
        #[trigger] columns[c],
    ) by {
        assert(columns[c] == bound[c].runtime);
        assert(is_runtime_of(g, p.column_ids@[0 + c], 0 + c, bound[c].runtime));
    }
}

/// An action of a foreign key is what its object says.
pub open spec fn is_action_of(action: ForeignKeyAction, said: CatalogAction) -> bool {
    match said {
        CatalogAction::NoAction => action == ForeignKeyAction::NoAction,
        CatalogAction::Restrict => action == ForeignKeyAction::Restrict,
        CatalogAction::Cascade => action == ForeignKeyAction::Cascade,
        CatalogAction::SetNull => action == ForeignKeyAction::SetNull,
        CatalogAction::SetDefault => false,
    }
}

/// A foreign key leads where its object says, and does what it says.
pub open spec fn is_key_of(
    g: Generation,
    columns: Seq<RuntimeColumnView>,
    payload: ConstraintPayload,
    fk: ForeignKeyView,
) -> bool {
    match payload {
        ConstraintPayload::ForeignKey {
            column_ids,
            referenced_table_id,
            referenced_column_ids,
            on_update,
            on_delete,
        } => {
            &&& column_ids@.len() == 1
            &&& referenced_column_ids@.len() == 1
            &&& exists|c: int|
                0 <= c < columns.len() && (#[trigger] columns[c]).id == column_ids@[0]
                    && fk.column_index == columns[c].ordinal && fk.column_name == columns[c].name
            &&& g.lookup(referenced_table_id) is Some
            &&& fk.referenced_table == g.lookup(referenced_table_id)->Some_0.normalized@
            &&& g.lookup(referenced_column_ids@[0]) is Some
            &&& fk.referenced_column == g.lookup(referenced_column_ids@[0])->Some_0.normalized@
            &&& is_action_of(fk.on_update, on_update)
            &&& is_action_of(fk.on_delete, on_delete)
        },
        _ => false,
    }
}

proof fn lemma_constraint(
    g: Generation,
    columns: Seq<RuntimeColumnView>,
    bound: BoundView,
    id: u128,
)
    requires
        with_constraint(g, columns, bound, id) is Ok,
    ensures
        ({
            let next = with_constraint(g, columns, bound, id)->Ok_0;
            &&& g.lookup(id) is Some
            &&& g.lookup(id)->Some_0.payload is Constraint
            &&& {
                let payload = g.lookup(id)->Some_0.payload->Constraint_0;
                &&& payload is ForeignKey ==> next.foreign_keys.len() == bound.foreign_keys.len()
                    + 1 && is_key_of(g, columns, payload, next.foreign_keys.last())
                    && next.foreign_keys.drop_last() == bound.foreign_keys
                &&& !(payload is ForeignKey) ==> next.foreign_keys == bound.foreign_keys
            }
        }),
{
    let next = with_constraint(g, columns, bound, id)->Ok_0;
    let payload = g.lookup(id)->Some_0.payload->Constraint_0;
    match payload {
        ConstraintPayload::ForeignKey {
            column_ids,
            referenced_table_id,
            referenced_column_ids,
            on_update,
            on_delete,
        } => {
            lemma_column_at(columns, column_ids@[0], 0);
            let local = column_at(columns, column_ids@[0], 0)->Some_0;
            let c = choose|c: int| 0 <= c < columns.len() && columns[c] == local;
            assert(columns[c].id == column_ids@[0]);
            assert(next.foreign_keys.drop_last() =~= bound.foreign_keys);
        },
        _ => {},
    }
}

#[verifier::spinoff_prover]
#[verifier::rlimit(40)]
proof fn lemma_constraints(
    g: Generation,
    columns: Seq<RuntimeColumnView>,
    bound: BoundView,
    ids: Seq<u128>,
    i: int,
)
    requires
        0 <= i <= ids.len(),
        with_constraints(g, columns, bound, ids, i) is Ok,
    ensures
        ({
            let out = with_constraints(g, columns, bound, ids, i)->Ok_0;
            &&& out.foreign_keys.len() >= bound.foreign_keys.len()
            &&& forall|f: int|
                0 <= f < bound.foreign_keys.len() ==> #[trigger] out.foreign_keys[f]
                    == bound.foreign_keys[f]
            &&& forall|k: int|
                i <= k < ids.len() && is_foreign_key(g, #[trigger] ids[k]) ==> exists|f: int|
                    0 <= f < out.foreign_keys.len() && is_key_of(
                        g,
                        columns,
                        g.lookup(ids[k])->Some_0.payload->Constraint_0,
                        #[trigger] out.foreign_keys[f],
                    )
            &&& forall|f: int|
                bound.foreign_keys.len() <= f < out.foreign_keys.len() ==> exists|k: int|
                    i <= k < ids.len() && is_foreign_key(g, #[trigger] ids[k]) && is_key_of(
                        g,
                        columns,
                        g.lookup(ids[k])->Some_0.payload->Constraint_0,
                        #[trigger] out.foreign_keys[f],
                    )
        }),
    decreases ids.len() - i,
{
    if i < ids.len() {
        let next = with_constraint(g, columns, bound, ids[i])->Ok_0;
        lemma_constraint(g, columns, bound, ids[i]);
        lemma_constraints(g, columns, next, ids, i + 1);
        let out = with_constraints(g, columns, bound, ids, i)->Ok_0;
        let n = bound.foreign_keys.len() as int;
        assert forall|f: int| 0 <= f < n implies #[trigger] out.foreign_keys[f]
            == bound.foreign_keys[f] by {
            if is_foreign_key(g, ids[i]) {
                assert(next.foreign_keys.drop_last()[f] == next.foreign_keys[f]);
            }
            assert(out.foreign_keys[f] == next.foreign_keys[f]);
        }
        if is_foreign_key(g, ids[i]) {
            assert(out.foreign_keys[n] == next.foreign_keys[n]);
            assert(next.foreign_keys[n] == next.foreign_keys.last());
        }
        assert forall|f: int| n <= f < out.foreign_keys.len() implies exists|k: int|
            i <= k < ids.len() && is_foreign_key(g, #[trigger] ids[k]) && is_key_of(
                g,
                columns,
                g.lookup(ids[k])->Some_0.payload->Constraint_0,
                #[trigger] out.foreign_keys[f],
            ) by {
            if f < next.foreign_keys.len() {
                assert(is_foreign_key(g, ids[i]));
            } else {
                let k = choose|k: int|
                    i + 1 <= k < ids.len() && is_foreign_key(g, #[trigger] ids[k]) && is_key_of(
                        g,
                        columns,
                        g.lookup(ids[k])->Some_0.payload->Constraint_0,
                        out.foreign_keys[f],
                    );
                assert(is_foreign_key(g, ids[k]));
            }
        }
    }
}

/// The object of an identity is a foreign key.
pub open spec fn is_foreign_key(g: Generation, id: u128) -> bool {
    &&& g.lookup(id) is Some
    &&& g.lookup(id)->Some_0.payload is Constraint
    &&& g.lookup(id)->Some_0.payload->Constraint_0 is ForeignKey
}

/// A foreign key is the one that the object of an identity describes.
pub open spec fn describes(
    g: Generation,
    columns: Seq<RuntimeColumnView>,
    id: u128,
    fk: ForeignKeyView,
) -> bool {
    is_foreign_key(g, id) && is_key_of(
        g,
        columns,
        g.lookup(id)->Some_0.payload->Constraint_0,
        fk,
    )
}

#[verifier::spinoff_prover]
#[verifier::rlimit(60)]
proof fn lemma_keys_are_described(
    g: Generation,
    columns: Seq<RuntimeColumnView>,
    ids: Seq<u128>,
    out: BoundView,
    k: int,
    f: int,
)
    requires
        with_constraints(g, columns, super::constraints::no_constraints(), ids, 0) == Ok::<
            BoundView,
            crate::error::ErrorView,
        >(out),
    ensures
        0 <= k < ids.len() && is_foreign_key(g, ids[k]) ==> exists|at: int|
            0 <= at < out.foreign_keys.len() && describes(
                g,
                columns,
                ids[k],
                #[trigger] out.foreign_keys[at],
            ),
        0 <= f < out.foreign_keys.len() ==> exists|at: int|
            0 <= at < ids.len() && describes(g, columns, #[trigger] ids[at], out.foreign_keys[f]),
{
    lemma_constraints(g, columns, super::constraints::no_constraints(), ids, 0);
    if 0 <= k < ids.len() && is_foreign_key(g, ids[k]) {
        let at = choose|at: int|
            0 <= at < out.foreign_keys.len() && is_key_of(
                g,
                columns,
                g.lookup(ids[k])->Some_0.payload->Constraint_0,
                #[trigger] out.foreign_keys[at],
            );
        assert(describes(g, columns, ids[k], out.foreign_keys[at]));
    }
    if 0 <= f < out.foreign_keys.len() {
        let fk = out.foreign_keys[f];
        let at = choose|at: int|
            0 <= at < ids.len() && is_foreign_key(g, #[trigger] ids[at]) && is_key_of(
                g,
                columns,
                g.lookup(ids[at])->Some_0.payload->Constraint_0,
                fk,
            );
        assert(describes(g, columns, ids[at], fk));
    }
}

/// The constraints of a table come to exactly its foreign keys: each that an
/// object describes is there, and each that is there is described by one.
pub proof fn law_bound_foreign_keys_are_the_objects(
    g: Generation,
    columns: Seq<RuntimeColumnView>,
    table_id: u128,
    listed: Seq<u128>,
    ids: Seq<u128>,
    out: BoundView,
    k: int,
    f: int,
)
    requires
        constraint_order(g, table_id, listed) == Ok::<Seq<u128>, crate::error::ErrorView>(ids),
        table_constraints(g, columns, table_id, listed) == Ok::<
            BoundView,
            crate::error::ErrorView,
        >(out),
    ensures
        0 <= k < ids.len() && is_foreign_key(g, ids[k]) ==> exists|at: int|
            0 <= at < out.foreign_keys.len() && describes(
                g,
                columns,
                ids[k],
                #[trigger] out.foreign_keys[at],
            ),
        0 <= f < out.foreign_keys.len() ==> exists|at: int|
            0 <= at < ids.len() && describes(g, columns, #[trigger] ids[at], out.foreign_keys[f]),
{
    lemma_keys_are_described(g, columns, ids, out, k, f);
}

proof fn lemma_schema_edges(schema: SchemaView, n: int, edge: ReferencingView)
    requires
        0 <= n <= schema.foreign_keys.len(),
    ensures
        schema_edges(schema, n).contains(edge) <==> edge.table == schema.table_name_lower
            && exists|k: int| 0 <= k < n && #[trigger] schema.foreign_keys[k] == edge.foreign_key,
    decreases n,
{
    if n > 0 {
        lemma_schema_edges(schema, n - 1, edge);
        let before = schema_edges(schema, n - 1);
        let last = ReferencingView {
            table: schema.table_name_lower,
            foreign_key: schema.foreign_keys[n - 1],
        };
        lemma_pushed(before, last, edge);
        if schema.foreign_keys[n - 1] == edge.foreign_key {
            assert(schema.foreign_keys[n - 1] == edge.foreign_key);
        }
    }
}

proof fn lemma_pushed<A>(s: Seq<A>, x: A, y: A)
    ensures
        s.push(x).contains(y) <==> s.contains(y) || x == y,
{
    let t = s.push(x);
    if s.contains(y) {
        let k = choose|k: int| 0 <= k < s.len() && s[k] == y;
        assert(t[k] == y);
    }
    if x == y {
        assert(t[s.len() as int] == y);
    }
    if t.contains(y) {
        let k = choose|k: int| 0 <= k < t.len() && t[k] == y;
        if k < s.len() {
            assert(s[k] == y);
        }
    }
}

proof fn lemma_all_edges(schemas: Seq<SchemaView>, n: int, edge: ReferencingView)
    requires
        0 <= n <= schemas.len(),
    ensures
        all_edges(schemas, n).contains(edge) <==> exists|s: int|
            0 <= s < n && is_edge_of(#[trigger] schemas[s], edge),
    decreases n,
{
    if n > 0 {
        lemma_all_edges(schemas, n - 1, edge);
        let last = schemas[n - 1];
        lemma_schema_edges(last, last.foreign_keys.len() as int, edge);
        let a = all_edges(schemas, n - 1);
        let b = schema_edges(last, last.foreign_keys.len() as int);
        if a.contains(edge) {
            let k = choose|k: int| 0 <= k < a.len() && a[k] == edge;
            assert((a + b)[k] == edge);
            let s = choose|s: int| 0 <= s < n - 1 && is_edge_of(#[trigger] schemas[s], edge);
            assert(is_edge_of(schemas[s], edge));
        }
        if b.contains(edge) {
            let k = choose|k: int| 0 <= k < b.len() && b[k] == edge;
            assert((a + b)[a.len() + k] == edge);
            assert(is_edge_of(schemas[n - 1], edge));
        }
        if (a + b).contains(edge) {
            let k = choose|k: int| 0 <= k < (a + b).len() && (a + b)[k] == edge;
            if k < a.len() {
                assert(a[k] == edge);
            } else {
                assert(b[k - a.len()] == edge);
            }
        }
        if exists|s: int| 0 <= s < n && is_edge_of(#[trigger] schemas[s], edge) {
            let s = choose|s: int| 0 <= s < n && is_edge_of(#[trigger] schemas[s], edge);
            if s == n - 1 {
                assert(b.contains(edge));
            }
        }
    }
}

/// A foreign key of a table, under the table's normalized name.
pub open spec fn is_edge_of(schema: SchemaView, edge: ReferencingView) -> bool {
    &&& edge.table == schema.table_name_lower
    &&& exists|k: int|
        0 <= k < schema.foreign_keys.len() && #[trigger] schema.foreign_keys[k]
            == edge.foreign_key
}

proof fn lemma_edges_to(
    edges: Seq<ReferencingView>,
    parent: Seq<char>,
    n: int,
    edge: ReferencingView,
)
    requires
        0 <= n <= edges.len(),
    ensures
        edges_to(edges, parent, n).contains(edge) <==> edge.foreign_key.referenced_table == parent
            && edges.take(n).contains(edge),
        edges_to_any_case(edges, parent, n).contains(edge) <==> same_ignoring_ascii_case(
            edge.foreign_key.referenced_table,
            parent,
        ) && edges.take(n).contains(edge),
    decreases n,
{
    if n > 0 {
        lemma_edges_to(edges, parent, n - 1, edge);
        assert(edges.take(n) =~= edges.take(n - 1).push(edges[n - 1]));
        lemma_pushed(edges.take(n - 1), edges[n - 1], edge);
        lemma_pushed(edges_to(edges, parent, n - 1), edges[n - 1], edge);
        lemma_pushed(edges_to_any_case(edges, parent, n - 1), edges[n - 1], edge);
    }
}

/// The foreign keys found to refer to a table are exactly those of the
/// catalog's schemas that do.
pub proof fn law_all_references_are_found(
    schemas: Seq<SchemaView>,
    parent: Seq<char>,
    edge: ReferencingView,
)
    ensures
        ({
            let edges = all_edges(schemas, schemas.len() as int);
            let known = exists|s: int|
                0 <= s < schemas.len() && is_edge_of(#[trigger] schemas[s], edge);
            &&& edges_to(edges, parent, edges.len() as int).contains(edge) <==> known
                && edge.foreign_key.referenced_table == parent
            &&& edges_to_any_case(edges, parent, edges.len() as int).contains(edge) <==> known
                && same_ignoring_ascii_case(edge.foreign_key.referenced_table, parent)
        }),
{
    let edges = all_edges(schemas, schemas.len() as int);
    lemma_all_edges(schemas, schemas.len() as int, edge);
    lemma_edges_to(edges, parent, edges.len() as int, edge);
    assert(edges.take(edges.len() as int) =~= edges);
}

} // verus!
