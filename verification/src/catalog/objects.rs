//! Objects of a catalog generation and the columns of its tables.
use super::runtime::HnswParameters;
use crate::error::Error;
use crate::error::ErrorView;
use crate::model::duplicate_option;
use crate::model::option_view;
use crate::publication::catalog::AccessMethod;
use crate::schema::ColumnView;
use crate::schema::DataType;
use crate::schema::SchemaColumn;
use crate::text::lowercase_text;
use crate::text::to_lowercase;
use vstd::prelude::*;
use vstd::string::StringExecFns;

verus! {

/// What happens to children of a vanishing parent key.
#[derive(Debug, Clone, Copy, PartialEq, Eq, Structural)]
pub enum CatalogAction {
    NoAction,
    Restrict,
    Cascade,
    SetNull,
    SetDefault,
}

#[derive(Debug)]
pub enum ConstraintPayload {
    PrimaryKey { column_ids: Vec<u128> },
    Unique { column_ids: Vec<u128> },
    ForeignKey {
        column_ids: Vec<u128>,
        referenced_table_id: u128,
        referenced_column_ids: Vec<u128>,
        on_update: CatalogAction,
        on_delete: CatalogAction,
    },
    Check { column_id: Option<u128>, sql: String },
    NotNull,
}

#[derive(Debug)]
pub struct ColumnPayload {
    pub ordinal: u32,
    pub data_type: DataType,
    pub parameter_1: u32,
    pub parameter_2: u32,
    pub nullable: bool,
    pub auto_increment: bool,
    pub default_sql: Option<String>,
    pub is_generated: bool,
}

#[derive(Debug)]
pub struct IndexPayload {
    pub access_method: AccessMethod,
    pub unique: bool,
    pub key_column_ids: Vec<u128>,
    pub has_includes: bool,
    pub has_expression: bool,
    pub predicate_sql: Option<String>,
    pub hnsw: Option<HnswParameters>,
}

#[derive(Debug)]
pub struct TablePayload {
    pub column_ids: Vec<u128>,
    pub index_ids: Vec<u128>,
    pub constraint_ids: Vec<u128>,
    pub primary_key_constraint_id: Option<u128>,
}

#[derive(Debug)]
pub enum Payload {
    Table(TablePayload),
    Column(ColumnPayload),
    Index(IndexPayload),
    Constraint(ConstraintPayload),
    View { dependency_ids: Vec<u128>, canonical_sql: String },
    Other,
}

#[derive(Debug)]
pub struct Object {
    pub id: u128,
    /// Name as it was written.
    pub display: String,
    /// Name under which it is found.
    pub normalized: String,
    pub payload: Payload,
}

#[derive(Debug, Clone, Copy, PartialEq, Eq, Structural)]
pub enum EdgeKind {
    Contains,
    DependsOn,
    Other,
}

#[derive(Debug, Clone, Copy, PartialEq, Eq, Structural)]
pub struct Edge {
    pub source: u128,
    pub target: u128,
    pub kind: EdgeKind,
    pub ordinal: u32,
}

/// A catalog generation.
#[derive(Debug)]
pub struct Generation {
    pub objects: Vec<Object>,
    pub edges: Vec<Edge>,
}

/// First object with an identity.
pub open spec fn object_at(objects: Seq<Object>, id: u128, i: int) -> Option<Object>
    decreases objects.len() - i,
{
    if i < 0 || i >= objects.len() {
        None
    } else if objects[i].id == id {
        Some(objects[i])
    } else {
        object_at(objects, id, i + 1)
    }
}

impl Generation {
    pub open spec fn lookup(self, id: u128) -> Option<Object> {
        object_at(self.objects@, id, 0)
    }

    pub fn object(&self, id: u128) -> (r: Option<&Object>)
        ensures
            match r {
                Some(o) => self.lookup(id) == Some(*o),
                None => self.lookup(id) is None,
            },
    {
        let mut i: usize = 0;
        while i < self.objects.len()
            invariant
                0 <= i <= self.objects@.len(),
                self.lookup(id) == object_at(self.objects@, id, i as int),
            decreases self.objects@.len() - i,
        {
            if self.objects[i].id == id {
                return Some(&self.objects[i]);
            }
            i = i + 1;
        }
        None
    }
}

pub fn has_id(ids: &Vec<u128>, id: u128) -> (r: bool)
    ensures
        r == ids@.contains(id),
{
    let mut i: usize = 0;
    while i < ids.len()
        invariant
            0 <= i <= ids@.len(),
            forall|k: int| 0 <= k < i ==> #[trigger] ids@[k] != id,
        decreases ids@.len() - i,
    {
        if ids[i] == id {
            return true;
        }
        i = i + 1;
    }
    false
}

/// Columns of a table's primary key.
pub open spec fn key_columns(g: Generation, table: TablePayload) -> Result<Seq<u128>, ErrorView> {
    match table.primary_key_constraint_id {
        None => Ok(Seq::empty()),
        Some(id) => match g.lookup(id) {
            None => Err(ErrorView::Internal("primary-key catalog object disappeared"@)),
            Some(o) => match o.payload {
                Payload::Constraint(ConstraintPayload::PrimaryKey { column_ids }) => Ok(
                    column_ids@,
                ),
                _ => Err(
                    ErrorView::Internal(
                        "table primary-key identity has a non-primary-key payload"@,
                    ),
                ),
            },
        },
    }
}

pub fn primary_key_columns(g: &Generation, table: &TablePayload) -> (r: Result<Vec<u128>, Error>)
    ensures
        match r {
            Ok(ids) => key_columns(*g, *table) == Ok::<Seq<u128>, ErrorView>(ids@),
            Err(e) => key_columns(*g, *table) == Err::<Seq<u128>, ErrorView>(e@),
        },
{
    let id: u128 = match table.primary_key_constraint_id {
        None => {
            let none: Vec<u128> = Vec::new();
            assert(none@ =~= Seq::<u128>::empty());
            return Ok(none);
        },
        Some(id) => id,
    };
    match g.object(id) {
        None => Err(Error::internal("primary-key catalog object disappeared")),
        Some(object) => match &object.payload {
            Payload::Constraint(ConstraintPayload::PrimaryKey { column_ids }) => {
                let mut ids: Vec<u128> = Vec::new();
                ids.extend_from_slice(column_ids.as_slice());
                assert(ids@ =~= column_ids@);
                Ok(ids)
            },
            _ => Err(
                Error::internal("table primary-key identity has a non-primary-key payload"),
            ),
        },
    }
}

/// A column of a table, by its identity.
#[derive(Debug)]
pub struct RuntimeColumn {
    pub id: u128,
    pub name: String,
    pub ordinal: usize,
    pub data_type: DataType,
}

#[verifier::ext_equal]
pub struct RuntimeColumnView {
    pub id: u128,
    pub name: Seq<char>,
    pub ordinal: usize,
    pub data_type: DataType,
}

impl View for RuntimeColumn {
    type V = RuntimeColumnView;

    open spec fn view(&self) -> RuntimeColumnView {
        RuntimeColumnView {
            id: self.id,
            name: self.name@,
            ordinal: self.ordinal,
            data_type: self.data_type,
        }
    }
}

/// First column with an identity.
pub open spec fn column_at(columns: Seq<RuntimeColumnView>, id: u128, i: int) -> Option<
    RuntimeColumnView,
>
    decreases columns.len() - i,
{
    if i < 0 || i >= columns.len() {
        None
    } else if columns[i].id == id {
        Some(columns[i])
    } else {
        column_at(columns, id, i + 1)
    }
}

pub open spec fn column_views(columns: Seq<RuntimeColumn>) -> Seq<RuntimeColumnView> {
    columns.map_values(|c: RuntimeColumn| c@)
}

pub fn find_column(columns: &Vec<RuntimeColumn>, id: u128) -> (r: Option<&RuntimeColumn>)
    ensures
        match r {
            Some(c) => column_at(column_views(columns@), id, 0) == Some(c@),
            None => column_at(column_views(columns@), id, 0) is None,
        },
{
    let ghost all = column_views(columns@);
    let mut i: usize = 0;
    while i < columns.len()
        invariant
            0 <= i <= columns@.len(),
            all == column_views(columns@),
            column_at(all, id, 0) == column_at(all, id, i as int),
        decreases columns@.len() - i,
    {
        assert(all[i as int] == columns@[i as int]@);
        if columns[i].id == id {
            return Some(&columns[i]);
        }
        i = i + 1;
    }
    None
}

/// One column as schema and lookup see it.
pub struct BoundColumn {
    pub column: ColumnView,
    pub runtime: RuntimeColumnView,
}

/// The column at a position of a table.
pub open spec fn bound_column(g: Generation, keys: Seq<u128>, id: u128, ordinal: int) -> Result<
    BoundColumn,
    ErrorView,
> {
    match g.lookup(id) {
        None => Err(ErrorView::Internal("catalog table column disappeared"@)),
        Some(o) => match o.payload {
            Payload::Column(c) => if c.ordinal != ordinal {
                Err(ErrorView::Internal("catalog column has a non-canonical ordinal"@))
            } else if c.is_generated {
                Err(
                    ErrorView::NotSupported(
                        "generated-column catalog recovery is not implemented"@,
                    ),
                )
            } else {
                Ok(
                    BoundColumn {
                        column: ColumnView {
                            id: ordinal as usize,
                            name: o.display@,
                            name_lower: lowercase_text(o.display@),
                            data_type: c.data_type,
                            nullable: c.nullable,
                            primary_key: keys.contains(id),
                            auto_increment: c.auto_increment,
                            default_expr: option_view(c.default_sql),
                            check_expr: None,
                            vector_dimensions: if c.data_type == DataType::Vector {
                                c.parameter_1 as u16
                            } else {
                                0
                            },
                            decimal_precision: if c.data_type == DataType::Decimal {
                                c.parameter_1 as u8
                            } else {
                                0
                            },
                            decimal_scale: if c.data_type == DataType::Decimal {
                                c.parameter_2 as u8
                            } else {
                                0
                            },
                        },
                        runtime: RuntimeColumnView {
                            id,
                            name: o.display@,
                            ordinal: ordinal as usize,
                            data_type: c.data_type,
                        },
                    },
                )
            },
            _ => Err(ErrorView::Internal("catalog table column has wrong payload"@)),
        },
    }
}

fn bind_column(g: &Generation, keys: &Vec<u128>, id: u128, ordinal: usize) -> (r: Result<
    (SchemaColumn, RuntimeColumn),
    Error,
>)
    ensures
        match r {
            Ok(b) => bound_column(*g, keys@, id, ordinal as int) == Ok::<BoundColumn, ErrorView>(
                BoundColumn { column: b.0@, runtime: b.1@ },
            ),
            Err(e) => bound_column(*g, keys@, id, ordinal as int) == Err::<BoundColumn, ErrorView>(
                e@,
            ),
        },
{
    let object: &Object = match g.object(id) {
        Some(o) => o,
        None => {
            return Err(Error::internal("catalog table column disappeared"));
        },
    };
    let payload: &ColumnPayload = match &object.payload {
        Payload::Column(c) => c,
        _ => {
            return Err(Error::internal("catalog table column has wrong payload"));
        },
    };
    if payload.ordinal as u64 != ordinal as u64 {
        return Err(Error::internal("catalog column has a non-canonical ordinal"));
    }
    if payload.is_generated {
        return Err(
            Error::NotSupported(
                String::from_str("generated-column catalog recovery is not implemented"),
            ),
        );
    }
    let is_vector: bool = payload.data_type == DataType::Vector;
    let is_decimal: bool = payload.data_type == DataType::Decimal;
    let column = SchemaColumn {
        id: ordinal,
        name: object.display.clone(),
        name_lower: to_lowercase(object.display.as_str()),
        data_type: payload.data_type,
        nullable: payload.nullable,
        primary_key: has_id(keys, id),
        auto_increment: payload.auto_increment,
        default_expr: duplicate_option(&payload.default_sql),
        check_expr: None,
        vector_dimensions: if is_vector {
            #[verifier::truncate]
            (payload.parameter_1 as u16)
        } else {
            0
        },
        decimal_precision: if is_decimal {
            #[verifier::truncate]
            (payload.parameter_1 as u8)
        } else {
            0
        },
        decimal_scale: if is_decimal {
            #[verifier::truncate]
            (payload.parameter_2 as u8)
        } else {
            0
        },
    };
    let runtime = RuntimeColumn {
        id,
        name: object.display.clone(),
        ordinal,
        data_type: payload.data_type,
    };
    Ok((column, runtime))
}

/// The columns of a table from `i` on, up to the first refusal.
pub open spec fn bound_columns(g: Generation, keys: Seq<u128>, ids: Seq<u128>, i: int) -> Result<
    Seq<BoundColumn>,
    ErrorView,
>
    decreases ids.len() - i,
{
    if i < 0 || i >= ids.len() {
        Ok(Seq::empty())
    } else {
        match bound_column(g, keys, ids[i], i) {
            Err(e) => Err(e),
            Ok(first) => match bound_columns(g, keys, ids, i + 1) {
                Err(e) => Err(e),
                Ok(rest) => Ok(seq![first] + rest),
            },
        }
    }
}

pub open spec fn pair_columns(columns: Seq<SchemaColumn>, runtime: Seq<RuntimeColumn>) -> Seq<
    BoundColumn,
> {
    Seq::new(
        columns.len(),
        |i: int| BoundColumn { column: columns[i]@, runtime: runtime[i]@ },
    )
}

/// The columns of a table, which are numbered in the order it lists them.
pub fn bind_columns(g: &Generation, keys: &Vec<u128>, ids: &Vec<u128>) -> (r: Result<
    (Vec<SchemaColumn>, Vec<RuntimeColumn>),
    Error,
>)
    ensures
        match r {
            Ok(b) => b.0@.len() == b.1@.len() && bound_columns(*g, keys@, ids@, 0) == Ok::<
                Seq<BoundColumn>,
                ErrorView,
            >(pair_columns(b.0@, b.1@)),
            Err(e) => bound_columns(*g, keys@, ids@, 0) == Err::<Seq<BoundColumn>, ErrorView>(e@),
        },
{
    let mut columns: Vec<SchemaColumn> = Vec::new();
    let mut runtime: Vec<RuntimeColumn> = Vec::new();
    proof {
        if let Ok(rest) = bound_columns(*g, keys@, ids@, 0) {
            assert(pair_columns(columns@, runtime@) + rest =~= rest);
        }
    }
    let mut i: usize = 0;
    while i < ids.len()
        invariant
            0 <= i <= ids@.len(),
            columns@.len() == runtime@.len(),
            bound_columns(*g, keys@, ids@, 0) == match bound_columns(*g, keys@, ids@, i as int) {
                Err(e) => Err::<Seq<BoundColumn>, ErrorView>(e),
                Ok(rest) => Ok(pair_columns(columns@, runtime@) + rest),
            },
        decreases ids@.len() - i,
    {
        let ghost done = pair_columns(columns@, runtime@);
        match bind_column(g, keys, ids[i], i) {
            Err(e) => {
                return Err(e);
            },
            Ok((column, bound)) => {
                let ghost seen = BoundColumn { column: column@, runtime: bound@ };
                columns.push(column);
                runtime.push(bound);
                proof {
                    assert(pair_columns(columns@, runtime@) =~= done.push(seen));
                    if let Ok(rest) = bound_columns(*g, keys@, ids@, i + 1) {
                        assert(done + (seq![seen] + rest) =~= pair_columns(columns@, runtime@)
                            + rest);
                    }
                }
            },
        }
        i = i + 1;
    }
    assert(pair_columns(columns@, runtime@) + Seq::<BoundColumn>::empty() =~= pair_columns(
        columns@,
        runtime@,
    ));
    Ok((columns, runtime))
}

} // verus!
