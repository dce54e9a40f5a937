//! Runtime tables and views, bound from the objects of a catalog generation.
use super::constraints::bind_constraints;
use super::constraints::table_constraints;
use super::constraints::BoundConstraints;
use super::constraints::BoundView;
use super::constraints::ColumnCheckView;
use super::objects::bind_columns;
use super::objects::bound_columns;
use super::objects::column_at;
use super::objects::column_views;
use super::objects::find_column;
use super::objects::key_columns;
use super::objects::pair_columns;
use super::objects::primary_key_columns;
use super::objects::BoundColumn;
use super::objects::ConstraintPayload;
use super::objects::Edge;
use super::objects::EdgeKind;
use super::objects::Generation;
use super::objects::IndexPayload;
use super::objects::Object;
use super::objects::Payload;
use super::objects::RuntimeColumn;
use super::objects::RuntimeColumnView;
use super::objects::TablePayload;
use super::runtime::distinct_tables;
use super::runtime::distinct_views;
use super::runtime::CatalogRuntime;
use super::runtime::CatalogRuntimeTable;
use super::runtime::HnswParameters;
use super::runtime::IndexDefinition;
use crate::error::outcome;
use crate::error::refusal;
use crate::error::Error;
use crate::error::ErrorView;
use crate::model::duplicate_option;
use crate::model::option_view;
use crate::model::views;
use crate::publication::catalog::AccessMethod;
use crate::schema::column_position;
use crate::schema::ColumnView;
use crate::schema::DataType;
use crate::schema::IndexType;
use crate::schema::Schema;
use crate::schema::SchemaColumn;
use crate::schema::SchemaView;
use crate::sort::is_permutation;
use crate::sort::names_of;
use crate::sort::sorted_unique_names;
use crate::sort::strictly_ascending_names;
use crate::text::lowercase_text;
use crate::text::same_ignoring_ascii_case;
use crate::text::to_lowercase;
use crate::view::ascending;
use crate::view::bound_view;
use crate::view::lemma_ascending_unique;
use crate::view::name_set;
use crate::view::ViewContent;
use crate::view::ViewDefinition;
use vstd::prelude::*;
use vstd::string::StringExecFns;

verus! {

/// Content of an index definition.
#[verifier::ext_equal]
pub struct IndexDefinitionView {
    pub name: Seq<char>,
    pub table_name: Seq<char>,
    pub column_names: Seq<Seq<char>>,
    pub column_ids: Seq<i32>,
    pub data_types: Seq<DataType>,
    pub is_unique: bool,
    pub index_type: IndexType,
    pub hnsw: Option<HnswParameters>,
    pub partial_predicate: Option<Seq<char>>,
}

impl View for IndexDefinition {
    type V = IndexDefinitionView;

    open spec fn view(&self) -> IndexDefinitionView {
        IndexDefinitionView {
            name: self.name@,
            table_name: self.table_name@,
            column_names: views(self.column_names@),
            column_ids: self.column_ids@,
            data_types: self.data_types@,
            is_unique: self.is_unique,
            index_type: self.index_type,
            hnsw: self.hnsw,
            partial_predicate: option_view(self.partial_predicate),
        }
    }
}

/// Whether an edge makes an index the one of a primary key.
pub open spec fn serves_key(g: Generation, index_id: u128, edge: Edge) -> bool {
    &&& edge.source == index_id
    &&& edge.kind == EdgeKind::DependsOn
    &&& match g.lookup(edge.target) {
        Some(o) => match o.payload {
            Payload::Constraint(ConstraintPayload::PrimaryKey { .. }) => true,
            _ => false,
        },
        None => false,
    }
}

pub open spec fn is_key_index(g: Generation, index_id: u128) -> bool {
    exists|i: int|
        0 <= i < g.edges@.len() && serves_key(g, index_id, #[trigger] g.edges@[i])
}

pub open spec fn bound_index_type(
    g: Generation,
    index_id: u128,
    method: AccessMethod,
    keys: nat,
) -> Result<IndexType, ErrorView> {
    if is_key_index(g, index_id) {
        Ok(IndexType::PrimaryKey)
    } else if keys > 1 {
        if method == AccessMethod::Btree {
            Ok(IndexType::MultiColumn)
        } else {
            Err(
                ErrorView::NotSupported(
                    "multi-column non-B-tree catalog recovery is not implemented"@,
                ),
            )
        }
    } else {
        Ok(
            match method {
                AccessMethod::Btree => IndexType::BTree,
                AccessMethod::Hash => IndexType::Hash,
                AccessMethod::Bitmap => IndexType::Bitmap,
                AccessMethod::Hnsw => IndexType::Hnsw,
            },
        )
    }
}

/// The runtime kind of an index.
pub fn bind_index_type(g: &Generation, index_id: u128, payload: &IndexPayload) -> (r: Result<
    IndexType,
    Error,
>)
    ensures
        bound_index_type(*g, index_id, payload.access_method, payload.key_column_ids@.len())
            == match r {
            Ok(t) => Ok::<IndexType, ErrorView>(t),
            Err(e) => Err::<IndexType, ErrorView>(e@),
        },
{
    let mut i: usize = 0;
    while i < g.edges.len()
        invariant
            0 <= i <= g.edges@.len(),
            forall|k: int| 0 <= k < i ==> !serves_key(*g, index_id, #[trigger] g.edges@[k]),
        decreases g.edges@.len() - i,
    {
        let edge: Edge = g.edges[i];
        if edge.source == index_id && edge.kind == EdgeKind::DependsOn {
            match g.object(edge.target) {
                Some(object) => match &object.payload {
                    Payload::Constraint(ConstraintPayload::PrimaryKey { .. }) => {
                        assert(serves_key(*g, index_id, g.edges@[i as int]));
                        return Ok(IndexType::PrimaryKey);
                    },
                    _ => {},
                },
                None => {},
            }
        }
        i = i + 1;
    }
    if payload.key_column_ids.len() > 1 {
        if payload.access_method == AccessMethod::Btree {
            return Ok(IndexType::MultiColumn);
        }
        return Err(
            Error::NotSupported(
                String::from_str("multi-column non-B-tree catalog recovery is not implemented"),
            ),
        );
    }
    Ok(
        match payload.access_method {
            AccessMethod::Btree => IndexType::BTree,
            AccessMethod::Hash => IndexType::Hash,
            AccessMethod::Bitmap => IndexType::Bitmap,
            AccessMethod::Hnsw => IndexType::Hnsw,
        },
    )
}

/// Columns of an index from position `i` of its key on.
pub open spec fn index_columns(columns: Seq<RuntimeColumnView>, ids: Seq<u128>, i: int) -> Result<
    Seq<RuntimeColumnView>,
    ErrorView,
>
    decreases ids.len() - i,
{
    if i < 0 || i >= ids.len() {
        Ok(Seq::empty())
    } else {
        match column_at(columns, ids[i], 0) {
            None => Err(ErrorView::Internal("index references a non-table column"@)),
            Some(c) => if c.ordinal > i32::MAX {
                Err(ErrorView::NotSupported("index column ordinal exceeds runtime bounds"@))
            } else {
                match index_columns(columns, ids, i + 1) {
                    Err(e) => Err(e),
                    Ok(rest) => Ok(seq![c] + rest),
                }
            },
        }
    }
}

pub open spec fn bound_index(
    g: Generation,
    table_name: Seq<char>,
    columns: Seq<RuntimeColumnView>,
    id: u128,
) -> Result<IndexDefinitionView, ErrorView> {
    match g.lookup(id) {
        None => Err(ErrorView::Internal("catalog index disappeared"@)),
        Some(o) => match o.payload {
            Payload::Index(p) => if p.has_expression || p.has_includes {
                Err(
                    ErrorView::NotSupported(
                        "expression and INCLUDE index catalog recovery is not implemented"@,
                    ),
                )
            } else {
                match (
                    index_columns(columns, p.key_column_ids@, 0),
                    bound_index_type(g, o.id, p.access_method, p.key_column_ids@.len()),
                ) {
                    (Err(e), _) => Err(e),
                    (Ok(_), Err(e)) => Err(e),
                    (Ok(keys), Ok(index_type)) => Ok(
                        IndexDefinitionView {
                            name: o.display@,
                            table_name,
                            column_names: keys.map_values(|c: RuntimeColumnView| c.name),
                            column_ids: keys.map_values(|c: RuntimeColumnView| c.ordinal as i32),
                            data_types: keys.map_values(|c: RuntimeColumnView| c.data_type),
                            is_unique: p.unique,
                            index_type,
                            hnsw: p.hnsw,
                            partial_predicate: option_view(p.predicate_sql),
                        },
                    ),
                }
            },
            _ => Err(ErrorView::Internal("catalog index has wrong payload"@)),
        },
    }
}

/// One index of a table.
pub fn bind_index(
    g: &Generation,
    table_name: &str,
    columns: &Vec<RuntimeColumn>,
    index_id: u128,
) -> (r: Result<IndexDefinition, Error>)
    ensures
        outcome(r) == bound_index(*g, table_name@, column_views(columns@), index_id),
{
    let index: &Object = match g.object(index_id) {
        Some(o) => o,
        None => {
            return Err(Error::internal("catalog index disappeared"));
        },
    };
    let payload: &IndexPayload = match &index.payload {
        Payload::Index(p) => p,
        _ => {
            return Err(Error::internal("catalog index has wrong payload"));
        },
    };
    if payload.has_expression || payload.has_includes {
        return Err(
            Error::NotSupported(
                String::from_str(
                    "expression and INCLUDE index catalog recovery is not implemented",
                ),
            ),
        );
    }
    let ghost all = column_views(columns@);
    let ghost keys = payload.key_column_ids@;
    let ghost mut found: Seq<RuntimeColumnView> = Seq::empty();
    let mut names: Vec<String> = Vec::new();
    let mut ids: Vec<i32> = Vec::new();
    let mut data_types: Vec<DataType> = Vec::new();
    proof {
        if let Ok(rest) = index_columns(all, keys, 0) {
            assert(found + rest =~= rest);
        }
        assert(views(names@) =~= found.map_values(|c: RuntimeColumnView| c.name));
        assert(ids@ =~= found.map_values(|c: RuntimeColumnView| c.ordinal as i32));
        assert(data_types@ =~= found.map_values(|c: RuntimeColumnView| c.data_type));
    }
    let mut i: usize = 0;
    while i < payload.key_column_ids.len()
        invariant
            0 <= i <= keys.len(),
            keys == payload.key_column_ids@,
            all == column_views(columns@),
            g.lookup(index_id) == Some(*index),
            index.payload == Payload::Index(*payload),
            !payload.has_expression && !payload.has_includes,
            index_columns(all, keys, 0) == match index_columns(all, keys, i as int) {
                Err(e) => Err::<Seq<RuntimeColumnView>, ErrorView>(e),
                Ok(rest) => Ok(found + rest),
            },
            views(names@) == found.map_values(|c: RuntimeColumnView| c.name),
            ids@ == found.map_values(|c: RuntimeColumnView| c.ordinal as i32),
            data_types@ == found.map_values(|c: RuntimeColumnView| c.data_type),
        decreases keys.len() - i,
    {
        let column: &RuntimeColumn = match find_column(columns, payload.key_column_ids[i]) {
            Some(c) => c,
            None => {
                return Err(Error::internal("index references a non-table column"));
            },
        };
        if column.ordinal > 2_147_483_647 {
            return Err(
                Error::NotSupported(
                    String::from_str("index column ordinal exceeds runtime bounds"),
                ),
            );
        }
        let ghost before = found;
        let ghost named = names@;
        names.push(column.name.clone());
        ids.push(column.ordinal as i32);
        data_types.push(column.data_type);
        proof {
            found = found.push(column@);
            if let Ok(rest) = index_columns(all, keys, i + 1) {
                assert(before + (seq![column@] + rest) =~= found + rest);
            }
            assert(views(names@) =~= views(named).push(column.name@));
            assert(views(names@) =~= found.map_values(|c: RuntimeColumnView| c.name));
            assert(ids@ =~= found.map_values(|c: RuntimeColumnView| c.ordinal as i32));
            assert(data_types@ =~= found.map_values(|c: RuntimeColumnView| c.data_type));
        }
        i = i + 1;
    }
    assert(found + Seq::<RuntimeColumnView>::empty() =~= found);
    let index_type: IndexType = match bind_index_type(g, index.id, payload) {
        Ok(t) => t,
        Err(e) => {
            return Err(e);
        },
    };
    Ok(
        IndexDefinition {
            name: index.display.clone(),
            table_name: String::from_str(table_name),
            column_names: names,
            column_ids: ids,
            data_types,
            is_unique: payload.unique,
            index_type,
            hnsw: payload.hnsw,
            partial_predicate: duplicate_option(&payload.predicate_sql),
        },
    )
}

/// Indexes of a table from position `i` of its list on.
pub open spec fn bound_indexes(
    g: Generation,
    table_name: Seq<char>,
    columns: Seq<RuntimeColumnView>,
    ids: Seq<u128>,
    i: int,
) -> Result<Seq<IndexDefinitionView>, ErrorView>
    decreases ids.len() - i,
{
    if i < 0 || i >= ids.len() {
        Ok(Seq::empty())
    } else {
        match bound_index(g, table_name, columns, ids[i]) {
            Err(e) => Err(e),
            Ok(first) => match bound_indexes(g, table_name, columns, ids, i + 1) {
                Err(e) => Err(e),
                Ok(rest) => Ok(seq![first] + rest),
            },
        }
    }
}

fn bind_indexes(
    g: &Generation,
    table_name: &str,
    columns: &Vec<RuntimeColumn>,
    ids: &Vec<u128>,
) -> (r: Result<Vec<IndexDefinition>, Error>)
    ensures
        bound_indexes(*g, table_name@, column_views(columns@), ids@, 0) == match r {
            Ok(indexes) => Ok::<Seq<IndexDefinitionView>, ErrorView>(views(indexes@)),
            Err(e) => Err::<Seq<IndexDefinitionView>, ErrorView>(e@),
        },
{
    let ghost all = column_views(columns@);
    let mut indexes: Vec<IndexDefinition> = Vec::new();
    proof {
        if let Ok(rest) = bound_indexes(*g, table_name@, all, ids@, 0) {
            assert(views(indexes@) + rest =~= rest);
        }
    }
    let mut i: usize = 0;
    while i < ids.len()
        invariant
            0 <= i <= ids@.len(),
            all == column_views(columns@),
            bound_indexes(*g, table_name@, all, ids@, 0) == match bound_indexes(
                *g,
                table_name@,
                all,
                ids@,
                i as int,
            ) {
                Err(e) => Err::<Seq<IndexDefinitionView>, ErrorView>(e),
                Ok(rest) => Ok(views(indexes@) + rest),
            },
        decreases ids@.len() - i,
    {
        let ghost done = views(indexes@);
        match bind_index(g, table_name, columns, ids[i]) {
            Err(e) => {
                return Err(e);
            },
            Ok(index) => {
                let ghost seen = index@;
                indexes.push(index);
                proof {
                    assert(views(indexes@) =~= done.push(seen));
                    if let Ok(rest) = bound_indexes(*g, table_name@, all, ids@, i + 1) {
                        assert(done + (seq![seen] + rest) =~= views(indexes@) + rest);
                    }
                }
            },
        }
        i = i + 1;
    }
    assert(views(indexes@) + Seq::<IndexDefinitionView>::empty() =~= views(indexes@));
    Ok(indexes)
}

/// A schema whose first columns that answer to the names of `checks`, from
/// position `i` on, carry those checks.
pub open spec fn with_checks(schema: SchemaView, checks: Seq<ColumnCheckView>, i: int) -> Result<
    SchemaView,
    ErrorView,
>
    decreases checks.len() - i,
{
    if i < 0 || i >= checks.len() {
        Ok(schema)
    } else {
        match column_position(schema, checks[i].column) {
            None => Err(ErrorView::ColumnNotFound(checks[i].column)),
            Some(at) => with_checks(
                SchemaView {
                    columns: schema.columns.update(
                        at,
                        ColumnView {
                            check_expr: Some(checks[i].expression),
                            ..schema.columns[at]
                        },
                    ),
                    ..schema
                },
                checks,
                i + 1,
            ),
        }
    }
}

fn set_column_check(schema: &mut Schema, column: &str, expression: &String) -> (r: Result<
    (),
    Error,
>)
    ensures
        match column_position(old(schema)@, column@) {
            None => r matches Err(e) && e@ == ErrorView::ColumnNotFound(column@),
            Some(at) => r is Ok && final(schema)@ == (SchemaView {
                columns: old(schema)@.columns.update(
                    at,
                    ColumnView { check_expr: Some(expression@), ..old(schema)@.columns[at] },
                ),
                ..old(schema)@
            }),
        },
{
    let ghost before = schema.columns@;
    match schema.get_column_index(column) {
        None => Err(Error::ColumnNotFound(String::from_str(column))),
        Some(at) => {
            let old_column: &SchemaColumn = &schema.columns[at];
            let checked = SchemaColumn {
                id: old_column.id,
                name: old_column.name.clone(),
                name_lower: old_column.name_lower.clone(),
                data_type: old_column.data_type,
                nullable: old_column.nullable,
                primary_key: old_column.primary_key,
                auto_increment: old_column.auto_increment,
                default_expr: duplicate_option(&old_column.default_expr),
                check_expr: Some(expression.clone()),
                vector_dimensions: old_column.vector_dimensions,
                decimal_precision: old_column.decimal_precision,
                decimal_scale: old_column.decimal_scale,
            };
            let ghost seen = checked@;
            schema.columns.set(at, checked);
            assert(views(schema.columns@) =~= views(before).update(at as int, seen));
            Ok(())
        },
    }
}

/// The schema that columns and constraints make up.
pub open spec fn assembled(
    table_name: Seq<char>,
    table_id: u128,
    columns: Seq<BoundColumn>,
    bound: BoundView,
) -> SchemaView {
    SchemaView {
        table_name,
        table_name_lower: lowercase_text(table_name),
        catalog_id: table_id,
        columns: columns.map_values(|c: BoundColumn| c.column),
        foreign_keys: bound.foreign_keys,
        table_checks: bound.table_checks,
        constraints: bound.catalog,
        next_constraint_id: bound.next_id,
        next_check_ordinal: bound.next_check_ordinal,
    }
}

/// A table as the runtime sees it.
#[verifier::ext_equal]
pub struct BoundTable {
    pub schema: SchemaView,
    pub indexes: Seq<IndexDefinitionView>,
}

impl View for CatalogRuntimeTable {
    type V = BoundTable;

    open spec fn view(&self) -> BoundTable {
        BoundTable { schema: self.schema@, indexes: views(self.indexes@) }
    }
}

pub open spec fn bound_table(g: Generation, table: Object) -> Result<BoundTable, ErrorView> {
    match table.payload {
        Payload::Table(p) => match key_columns(g, p) {
            Err(e) => Err(e),
            Ok(keys) => match bound_columns(g, keys, p.column_ids@, 0) {
                Err(e) => Err(e),
                Ok(columns) => {
                    let runtime = columns.map_values(|c: BoundColumn| c.runtime);
                    match table_constraints(g, runtime, table.id, p.constraint_ids@) {
                        Err(e) => Err(e),
                        Ok(bound) => match with_checks(
                            assembled(table.display@, table.id, columns, bound),
                            bound.column_checks,
                            0,
                        ) {
                            Err(e) => Err(e),
                            Ok(schema) => match bound_indexes(
                                g,
                                table.display@,
                                runtime,
                                p.index_ids@,
                                0,
                            ) {
                                Err(e) => Err(e),
                                Ok(indexes) => Ok(BoundTable { schema, indexes }),
                            },
                        },
                    }
                },
            },
        },
        _ => Err(ErrorView::Internal("catalog table has a non-table payload"@)),
    }
}

proof fn lemma_same_text_ignoring_case(a: Seq<char>)
    ensures
        same_ignoring_ascii_case(a, a),
{
}

/// Indexes are bound under the name of their table.
proof fn lemma_indexes_belong(
    g: Generation,
    table_name: Seq<char>,
    columns: Seq<RuntimeColumnView>,
    ids: Seq<u128>,
    i: int,
)
    ensures
        bound_indexes(g, table_name, columns, ids, i) matches Ok(indexes) ==> forall|k: int|
            0 <= k < indexes.len() ==> (#[trigger] indexes[k]).table_name == table_name,
    decreases ids.len() - i,
{
    if 0 <= i < ids.len() {
        lemma_indexes_belong(g, table_name, columns, ids, i + 1);
    }
}

proof fn lemma_checks_keep_name(schema: SchemaView, checks: Seq<ColumnCheckView>, i: int)
    ensures
        with_checks(schema, checks, i) matches Ok(s) ==> s.table_name == schema.table_name,
    decreases checks.len() - i,
{
    if 0 <= i < checks.len() {
        if let Some(at) = column_position(schema, checks[i].column) {
            lemma_checks_keep_name(
                SchemaView {
                    columns: schema.columns.update(
                        at,
                        ColumnView {
                            check_expr: Some(checks[i].expression),
                            ..schema.columns[at]
                        },
                    ),
                    ..schema
                },
                checks,
                i + 1,
            );
        }
    }
}

/// One table with its schema and indexes.
pub fn bind_table(g: &Generation, table: &Object) -> (r: Result<CatalogRuntimeTable, Error>)
    ensures
        bound_table(*g, *table) == match r {
            Ok(t) => Ok::<BoundTable, ErrorView>(t@),
            Err(e) => Err::<BoundTable, ErrorView>(e@),
        },
{
    let payload: &TablePayload = match &table.payload {
        Payload::Table(p) => p,
        _ => {
            return Err(Error::internal("catalog table has a non-table payload"));
        },
    };
    let keys: Vec<u128> = match primary_key_columns(g, payload) {
        Ok(keys) => keys,
        Err(e) => {
            return Err(e);
        },
    };
    let (columns, runtime) = match bind_columns(g, &keys, &payload.column_ids) {
        Ok(bound) => bound,
        Err(e) => {
            return Err(e);
        },
    };
    let ghost pairs = pair_columns(columns@, runtime@);
    proof {
        assert(column_views(runtime@) =~= pairs.map_values(|c: BoundColumn| c.runtime));
        assert(views(columns@) =~= pairs.map_values(|c: BoundColumn| c.column));
    }
    let constraints: BoundConstraints = match bind_constraints(
        g,
        &runtime,
        table.id,
        &payload.constraint_ids,
    ) {
        Ok(bound) => bound,
        Err(e) => {
            return Err(e);
        },
    };
    let ghost bound = constraints@;
    let BoundConstraints {
        foreign_keys,
        column_checks,
        table_checks,
        catalog,
        next_id,
        next_check_ordinal,
    } = constraints;
    let mut schema = Schema {
        table_name: table.display.clone(),
        table_name_lower: to_lowercase(table.display.as_str()),
        catalog_id: table.id,
        columns,
        foreign_keys,
        table_checks,
        constraints: catalog,
        next_constraint_id: next_id,
        next_check_ordinal,
    };
    let ghost start = schema@;
    let ghost checks = bound.column_checks;
    assert(start == assembled(table.display@, table.id, pairs, bound));
    let mut i: usize = 0;
    while i < column_checks.len()
        invariant
            0 <= i <= column_checks@.len(),
            checks == views(column_checks@),
            start == assembled(table.display@, table.id, pairs, bound),
            bound.column_checks == checks,
            bound_table(*g, *table) == match with_checks(start, checks, 0) {
                Err(e) => Err::<BoundTable, ErrorView>(e),
                Ok(s) => bound_table(*g, *table),
            },
            with_checks(start, checks, 0) == with_checks(schema@, checks, i as int),
        decreases column_checks@.len() - i,
    {
        assert(checks[i as int] == column_checks@[i as int]@);
        let check = &column_checks[i];
        match set_column_check(&mut schema, check.column.as_str(), &check.expression) {
            Ok(_) => {},
            Err(e) => {
                return Err(e);
            },
        }
        i = i + 1;
    }
    let indexes: Vec<IndexDefinition> = match bind_indexes(
        g,
        table.display.as_str(),
        &runtime,
        &payload.index_ids,
    ) {
        Ok(indexes) => indexes,
        Err(e) => {
            return Err(e);
        },
    };
    proof {
        lemma_indexes_belong(
            *g,
            table.display@,
            column_views(runtime@),
            payload.index_ids@,
            0,
        );
        lemma_checks_keep_name(start, checks, 0);
        assert forall|k: int| 0 <= k < indexes@.len() implies same_ignoring_ascii_case(
            (#[trigger] indexes@[k]).table_name@,
            schema.table_name@,
        ) by {
            assert(views(indexes@)[k] == indexes@[k]@);
            lemma_same_text_ignoring_case(table.display@);
        }
    }
    CatalogRuntimeTable::new(schema, indexes)
}

/// Names of a view's dependencies from position `i` of its list on.
pub open spec fn dependency_names(g: Generation, ids: Seq<u128>, i: int) -> Result<
    Seq<Seq<char>>,
    ErrorView,
>
    decreases ids.len() - i,
{
    if i < 0 || i >= ids.len() {
        Ok(Seq::empty())
    } else {
        match g.lookup(ids[i]) {
            None => Err(ErrorView::Internal("catalog view dependency disappeared"@)),
            Some(o) => match dependency_names(g, ids, i + 1) {
                Err(e) => Err(e),
                Ok(rest) => Ok(seq![o.normalized@] + rest),
            },
        }
    }
}

/// The names of a list in ascending order, each once.
pub open spec fn in_order(names: Seq<Seq<char>>) -> Seq<Seq<char>> {
    choose|s: Seq<Seq<char>>| #[trigger] ascending(s) && name_set(s) == name_set(names)
}

pub open spec fn bound_view_object(g: Generation, view: Object) -> Result<ViewContent, ErrorView> {
    match view.payload {
        Payload::View { dependency_ids, canonical_sql } => match dependency_names(
            g,
            dependency_ids@,
            0,
        ) {
            Err(e) => Err(e),
            Ok(names) => bound_view(view.display@, canonical_sql@, in_order(names)),
        },
        _ => Err(ErrorView::Internal("catalog view has a non-view payload"@)),
    }
}

proof fn lemma_in_order(names: Seq<String>, ordered: Seq<String>)
    requires
        strictly_ascending_names(ordered),
        names_of(ordered) == names_of(names),
    ensures
        in_order(views(names)) == views(ordered),
{
    let given = views(ordered);
    assert(ascending(given));
    assert(name_set(given) =~= names_of(ordered)) by {
        lemma_name_set(ordered);
    }
    assert(name_set(views(names)) =~= names_of(names)) by {
        lemma_name_set(names);
    }
    let chosen = in_order(views(names));
    assert(ascending(chosen) && name_set(chosen) == name_set(views(names)));
    lemma_ascending_unique(chosen, given);
}

proof fn lemma_name_set(names: Seq<String>)
    ensures
        name_set(views(names)) == names_of(names),
{
    let a = name_set(views(names));
    let b = names_of(names);
    assert forall|x: Seq<char>| a.contains(x) <==> b.contains(x) by {
        if a.contains(x) {
            let k = choose|k: int| 0 <= k < views(names).len() && views(names)[k] == x;
            assert(names[k]@ == x);
        }
        if b.contains(x) {
            let k = choose|k: int| 0 <= k < names.len() && (#[trigger] names[k])@ == x;
            assert(views(names)[k] == x);
        }
    }
    assert(a =~= b);
}

/// One view with the names it depends on, sorted and without repetition.
pub fn bind_view(g: &Generation, view: &Object) -> (r: Result<ViewDefinition, Error>)
    ensures
        outcome(r) == bound_view_object(*g, *view),
{
    let (ids, sql): (&Vec<u128>, &String) = match &view.payload {
        Payload::View { dependency_ids, canonical_sql } => (dependency_ids, canonical_sql),
        _ => {
            return Err(Error::internal("catalog view has a non-view payload"));
        },
    };
    let mut names: Vec<String> = Vec::new();
    proof {
        if let Ok(rest) = dependency_names(*g, ids@, 0) {
            assert(views(names@) + rest =~= rest);
        }
    }
    let mut i: usize = 0;
    while i < ids.len()
        invariant
            0 <= i <= ids@.len(),
            view.payload matches Payload::View { dependency_ids, canonical_sql } && dependency_ids
                == *ids && canonical_sql == *sql,
            dependency_names(*g, ids@, 0) == match dependency_names(*g, ids@, i as int) {
                Err(e) => Err::<Seq<Seq<char>>, ErrorView>(e),
                Ok(rest) => Ok(views(names@) + rest),
            },
        decreases ids@.len() - i,
    {
        let ghost done = views(names@);
        match g.object(ids[i]) {
            None => {
                return Err(Error::internal("catalog view dependency disappeared"));
            },
            Some(object) => {
                names.push(object.normalized.clone());
                proof {
                    assert(views(names@) =~= done.push(object.normalized@));
                    if let Ok(rest) = dependency_names(*g, ids@, i + 1) {
                        assert(done + (seq![object.normalized@] + rest) =~= views(names@) + rest);
                    }
                }
            },
        }
        i = i + 1;
    }
    assert(views(names@) + Seq::<Seq<char>>::empty() =~= views(names@));
    let ghost listed = names@;
    let dependencies: Vec<String> = sorted_unique_names(names);
    proof {
        lemma_in_order(listed, dependencies@);
    }
    ViewDefinition::from_bound_query(view.display.as_str(), sql.clone(), dependencies)
}

/// Tables among the objects from position `i` on.
pub open spec fn bound_tables_from(g: Generation, i: int) -> Result<Seq<BoundTable>, ErrorView>
    decreases g.objects@.len() - i,
{
    if i < 0 || i >= g.objects@.len() {
        Ok(Seq::empty())
    } else if !(g.objects@[i].payload is Table) {
        bound_tables_from(g, i + 1)
    } else {
        match bound_table(g, g.objects@[i]) {
            Err(e) => Err(e),
            Ok(first) => match bound_tables_from(g, i + 1) {
                Err(e) => Err(e),
                Ok(rest) => Ok(seq![first] + rest),
            },
        }
    }
}

/// Views among the objects from position `i` on.
pub open spec fn bound_views_from(g: Generation, i: int) -> Result<Seq<ViewContent>, ErrorView>
    decreases g.objects@.len() - i,
{
    if i < 0 || i >= g.objects@.len() {
        Ok(Seq::empty())
    } else if !(g.objects@[i].payload is View) {
        bound_views_from(g, i + 1)
    } else {
        match bound_view_object(g, g.objects@[i]) {
            Err(e) => Err(e),
            Ok(first) => match bound_views_from(g, i + 1) {
                Err(e) => Err(e),
                Ok(rest) => Ok(seq![first] + rest),
            },
        }
    }
}

pub fn bind_tables(g: &Generation) -> (r: Result<Vec<CatalogRuntimeTable>, Error>)
    ensures
        bound_tables_from(*g, 0) == match r {
            Ok(tables) => Ok::<Seq<BoundTable>, ErrorView>(views(tables@)),
            Err(e) => Err::<Seq<BoundTable>, ErrorView>(e@),
        },
{
    let mut tables: Vec<CatalogRuntimeTable> = Vec::new();
    proof {
        if let Ok(rest) = bound_tables_from(*g, 0) {
            assert(views(tables@) + rest =~= rest);
        }
    }
    let mut i: usize = 0;
    while i < g.objects.len()
        invariant
            0 <= i <= g.objects@.len(),
            bound_tables_from(*g, 0) == match bound_tables_from(*g, i as int) {
                Err(e) => Err::<Seq<BoundTable>, ErrorView>(e),
                Ok(rest) => Ok(views(tables@) + rest),
            },
        decreases g.objects@.len() - i,
    {
        let ghost done = views(tables@);
        match &g.objects[i].payload {
            Payload::Table(_) => match bind_table(g, &g.objects[i]) {
                Err(e) => {
                    return Err(e);
                },
                Ok(table) => {
                    let ghost seen = table@;
                    tables.push(table);
                    proof {
                        assert(views(tables@) =~= done.push(seen));
                        if let Ok(rest) = bound_tables_from(*g, i + 1) {
                            assert(done + (seq![seen] + rest) =~= views(tables@) + rest);
                        }
                    }
                },
            },
            _ => {},
        }
        i = i + 1;
    }
    assert(views(tables@) + Seq::<BoundTable>::empty() =~= views(tables@));
    Ok(tables)
}

pub fn bind_views(g: &Generation) -> (r: Result<Vec<ViewDefinition>, Error>)
    ensures
        bound_views_from(*g, 0) == match r {
            Ok(found) => Ok::<Seq<ViewContent>, ErrorView>(views(found@)),
            Err(e) => Err::<Seq<ViewContent>, ErrorView>(e@),
        },
{
    let mut found: Vec<ViewDefinition> = Vec::new();
    proof {
        if let Ok(rest) = bound_views_from(*g, 0) {
            assert(views(found@) + rest =~= rest);
        }
    }
    let mut i: usize = 0;
    while i < g.objects.len()
        invariant
            0 <= i <= g.objects@.len(),
            bound_views_from(*g, 0) == match bound_views_from(*g, i as int) {
                Err(e) => Err::<Seq<ViewContent>, ErrorView>(e),
                Ok(rest) => Ok(views(found@) + rest),
            },
        decreases g.objects@.len() - i,
    {
        let ghost done = views(found@);
        match &g.objects[i].payload {
            Payload::View { .. } => match bind_view(g, &g.objects[i]) {
                Err(e) => {
                    return Err(e);
                },
                Ok(view) => {
                    let ghost seen = view@;
                    found.push(view);
                    proof {
                        assert(views(found@) =~= done.push(seen));
                        if let Ok(rest) = bound_views_from(*g, i + 1) {
                            assert(done + (seq![seen] + rest) =~= views(found@) + rest);
                        }
                    }
                },
            },
            _ => {},
        }
        i = i + 1;
    }
    assert(views(found@) + Seq::<ViewContent>::empty() =~= views(found@));
    Ok(found)
}

/// A runtime that holds exactly the given tables and views.
pub open spec fn holds(
    runtime: CatalogRuntime,
    tables: Seq<BoundTable>,
    found: Seq<ViewContent>,
) -> bool {
    exists|t: Seq<CatalogRuntimeTable>, v: Seq<ViewDefinition>|
        #![trigger views(t), views(v)]
        views(t) == tables && views(v) == found && is_permutation(runtime.bound_tables(), t)
            && is_permutation(runtime.bound_views(), v)
}

/// No two tables, and no two views, share a name.
pub open spec fn names_differ(tables: Seq<BoundTable>, found: Seq<ViewContent>) -> bool {
    &&& forall|i: int, j: int|
        0 <= i < j < tables.len() ==> (#[trigger] tables[i]).schema.table_name_lower != (
        #[trigger] tables[j]).schema.table_name_lower
    &&& forall|i: int, j: int|
        0 <= i < j < found.len() ==> (#[trigger] found[i]).name != (#[trigger] found[j]).name
}

/// Why a generation cannot be bound.
pub open spec fn binding_refusal(g: Generation) -> Option<ErrorView> {
    match (bound_tables_from(g, 0), bound_views_from(g, 0)) {
        (Err(e), _) => Some(e),
        (Ok(_), Err(e)) => Some(e),
        (Ok(tables), Ok(found)) => if names_differ(tables, found) {
            None
        } else {
            Some(ErrorView::Internal("catalog runtime contains duplicate table or view names"@))
        },
    }
}

/// Binds the tables and views of a generation.
pub fn bind_catalog_runtime(g: &Generation) -> (r: Result<CatalogRuntime, Error>)
    ensures
        refusal(r) == binding_refusal(*g),
        r matches Ok(runtime) ==> runtime.wf() && holds(
            runtime,
            bound_tables_from(*g, 0)->Ok_0,
            bound_views_from(*g, 0)->Ok_0,
        ),
{
    let tables: Vec<CatalogRuntimeTable> = match bind_tables(g) {
        Ok(tables) => tables,
        Err(e) => {
            return Err(e);
        },
    };
    let found: Vec<ViewDefinition> = match bind_views(g) {
        Ok(found) => found,
        Err(e) => {
            return Err(e);
        },
    };
    let ghost t = tables@;
    let ghost v = found@;
    proof {
        assert(names_differ(views(t), views(v)) == (distinct_tables(t) && distinct_views(v))) by {
            lemma_distinct_by_view(t, v);
        }
    }
    CatalogRuntime::new(tables, found)
}

proof fn lemma_distinct_by_view(t: Seq<CatalogRuntimeTable>, v: Seq<ViewDefinition>)
    ensures
        names_differ(views(t), views(v)) == (distinct_tables(t) && distinct_views(v)),
{
    let a = views(t);
    let b = views(v);
    if names_differ(a, b) {
        assert forall|i: int, j: int| 0 <= i < j < t.len() implies (
        #[trigger] t[i]).schema.table_name_lower@ != (#[trigger] t[j]).schema.table_name_lower@ by {
            assert(a[i] == t[i]@ && a[j] == t[j]@);
        }
        assert forall|i: int, j: int| 0 <= i < j < v.len() implies (#[trigger] v[i]).name@ != (
        #[trigger] v[j]).name@ by {
            assert(b[i] == v[i]@ && b[j] == v[j]@);
        }
    }
    if distinct_tables(t) && distinct_views(v) {
        assert forall|i: int, j: int| 0 <= i < j < a.len() implies (
        #[trigger] a[i]).schema.table_name_lower != (#[trigger] a[j]).schema.table_name_lower by {
            assert(a[i] == t[i]@ && a[j] == t[j]@);
        }
        assert forall|i: int, j: int| 0 <= i < j < b.len() implies (#[trigger] b[i]).name != (
        #[trigger] b[j]).name by {
            assert(b[i] == v[i]@ && b[j] == v[j]@);
        }
    }
}

} // verus!
