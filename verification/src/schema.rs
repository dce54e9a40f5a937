//! Table schemas as the engine's decisions read them.
use crate::error::earlier;
use crate::error::first_refusal;
use crate::error::refusal;
use crate::error::Error;
use crate::error::ErrorView;
use crate::model::duplicate_all;
use crate::model::duplicate_option;
use crate::model::option_view;
use crate::model::same_all;
use crate::model::same_option;
use crate::model::views;
use crate::model::Model;
use crate::text::eq_ignore_ascii_case;
use crate::text::lowercase_text;
use crate::text::same_ignoring_ascii_case;
use crate::text::same_text;
use crate::text::to_lowercase;
use vstd::prelude::*;
use vstd::string::StringExecFns;

verus! {

/// Logical column types.
#[derive(Debug, Clone, Copy, PartialEq, Eq, Structural)]
pub enum DataType {
    Null,
    Integer,
    Float,
    Text,
    Boolean,
    Timestamp,
    Json,
    Vector,
    Bytes,
    Uuid,
    Decimal,
}

/// How an index finds its rows.
#[derive(Debug, Clone, Copy, PartialEq, Eq, Structural)]
pub enum IndexType {
    BTree,
    Hash,
    Bitmap,
    Hnsw,
    MultiColumn,
    PrimaryKey,
}

/// What happens to children of a vanishing parent key.
#[derive(Debug, Clone, Copy, PartialEq, Eq, Structural)]
pub enum ForeignKeyAction {
    NoAction,
    Restrict,
    Cascade,
    SetNull,
}

pub open spec fn data_type_label(data_type: DataType) -> Seq<char> {
    match data_type {
        DataType::Null => "Null"@,
        DataType::Integer => "Integer"@,
        DataType::Float => "Float"@,
        DataType::Text => "Text"@,
        DataType::Boolean => "Boolean"@,
        DataType::Timestamp => "Timestamp"@,
        DataType::Json => "Json"@,
        DataType::Vector => "Vector"@,
        DataType::Bytes => "Bytes"@,
        DataType::Uuid => "Uuid"@,
        DataType::Decimal => "Decimal"@,
    }
}

impl DataType {
    /// The name of the type in messages.
    pub fn name(self) -> (text: &'static str)
        ensures
            text@ == data_type_label(self),
    {
        match self {
            DataType::Null => "Null",
            DataType::Integer => "Integer",
            DataType::Float => "Float",
            DataType::Text => "Text",
            DataType::Boolean => "Boolean",
            DataType::Timestamp => "Timestamp",
            DataType::Json => "Json",
            DataType::Vector => "Vector",
            DataType::Bytes => "Bytes",
            DataType::Uuid => "Uuid",
            DataType::Decimal => "Decimal",
        }
    }
}

/// One column.
#[derive(Debug)]
pub struct SchemaColumn {
    pub id: usize,
    pub name: String,
    pub name_lower: String,
    pub data_type: DataType,
    pub nullable: bool,
    pub primary_key: bool,
    pub auto_increment: bool,
    pub default_expr: Option<String>,
    pub check_expr: Option<String>,
    pub vector_dimensions: u16,
    pub decimal_precision: u8,
    pub decimal_scale: u8,
}

pub struct ColumnView {
    pub id: usize,
    pub name: Seq<char>,
    pub name_lower: Seq<char>,
    pub data_type: DataType,
    pub nullable: bool,
    pub primary_key: bool,
    pub auto_increment: bool,
    pub default_expr: Option<Seq<char>>,
    pub check_expr: Option<Seq<char>>,
    pub vector_dimensions: u16,
    pub decimal_precision: u8,
    pub decimal_scale: u8,
}

impl View for SchemaColumn {
    type V = ColumnView;

    open spec fn view(&self) -> ColumnView {
        ColumnView {
            id: self.id,
            name: self.name@,
            name_lower: self.name_lower@,
            data_type: self.data_type,
            nullable: self.nullable,
            primary_key: self.primary_key,
            auto_increment: self.auto_increment,
            default_expr: option_view(self.default_expr),
            check_expr: option_view(self.check_expr),
            vector_dimensions: self.vector_dimensions,
            decimal_precision: self.decimal_precision,
            decimal_scale: self.decimal_scale,
        }
    }
}

impl Model for SchemaColumn {
    fn same(&self, other: &Self) -> (r: bool) {
        self.id == other.id && self.data_type == other.data_type && self.nullable == other.nullable
            && self.primary_key == other.primary_key && self.auto_increment == other.auto_increment
            && self.vector_dimensions == other.vector_dimensions && self.decimal_precision
            == other.decimal_precision && self.decimal_scale == other.decimal_scale
            && self.name.same(&other.name) && self.name_lower.same(&other.name_lower)
            && same_option(&self.default_expr, &other.default_expr) && same_option(
            &self.check_expr,
            &other.check_expr,
        )
    }

    fn duplicate(&self) -> (r: Self) {
        SchemaColumn {
            id: self.id,
            name: self.name.clone(),
            name_lower: self.name_lower.clone(),
            data_type: self.data_type,
            nullable: self.nullable,
            primary_key: self.primary_key,
            auto_increment: self.auto_increment,
            default_expr: duplicate_option(&self.default_expr),
            check_expr: duplicate_option(&self.check_expr),
            vector_dimensions: self.vector_dimensions,
            decimal_precision: self.decimal_precision,
            decimal_scale: self.decimal_scale,
        }
    }
}

/// A single-column foreign key.
#[derive(Debug)]
pub struct ForeignKeyConstraint {
    pub column_index: usize,
    pub column_name: String,
    pub referenced_table: String,
    pub referenced_column: String,
    pub on_delete: ForeignKeyAction,
    pub on_update: ForeignKeyAction,
}

pub struct ForeignKeyView {
    pub column_index: usize,
    pub column_name: Seq<char>,
    pub referenced_table: Seq<char>,
    pub referenced_column: Seq<char>,
    pub on_delete: ForeignKeyAction,
    pub on_update: ForeignKeyAction,
}

impl View for ForeignKeyConstraint {
    type V = ForeignKeyView;

    open spec fn view(&self) -> ForeignKeyView {
        ForeignKeyView {
            column_index: self.column_index,
            column_name: self.column_name@,
            referenced_table: self.referenced_table@,
            referenced_column: self.referenced_column@,
            on_delete: self.on_delete,
            on_update: self.on_update,
        }
    }
}

impl Model for ForeignKeyConstraint {
    fn same(&self, other: &Self) -> (r: bool) {
        self.column_index == other.column_index && self.on_delete == other.on_delete
            && self.on_update == other.on_update && self.column_name.same(&other.column_name)
            && self.referenced_table.same(&other.referenced_table) && self.referenced_column.same(
            &other.referenced_column,
        )
    }

    fn duplicate(&self) -> (r: Self) {
        ForeignKeyConstraint {
            column_index: self.column_index,
            column_name: self.column_name.clone(),
            referenced_table: self.referenced_table.clone(),
            referenced_column: self.referenced_column.clone(),
            on_delete: self.on_delete,
            on_update: self.on_update,
        }
    }
}

/// What a named constraint demands.
#[derive(Debug)]
pub enum SchemaConstraintKind {
    PrimaryKey { columns: Vec<String> },
    Unique { columns: Vec<String>, index_name: String },
    ForeignKey {
        columns: Vec<String>,
        referenced_table: String,
        referenced_columns: Vec<String>,
        on_delete: ForeignKeyAction,
        on_update: ForeignKeyAction,
    },
    Check { column_name: Option<String>, expression: String, ordinal: u32 },
}

pub enum ConstraintKindView {
    PrimaryKey { columns: Seq<Seq<char>> },
    Unique { columns: Seq<Seq<char>>, index_name: Seq<char> },
    ForeignKey {
        columns: Seq<Seq<char>>,
        referenced_table: Seq<char>,
        referenced_columns: Seq<Seq<char>>,
        on_delete: ForeignKeyAction,
        on_update: ForeignKeyAction,
    },
    Check { column_name: Option<Seq<char>>, expression: Seq<char>, ordinal: u32 },
}

impl View for SchemaConstraintKind {
    type V = ConstraintKindView;

    open spec fn view(&self) -> ConstraintKindView {
        match self {
            SchemaConstraintKind::PrimaryKey { columns } => ConstraintKindView::PrimaryKey {
                columns: views(columns@),
            },
            SchemaConstraintKind::Unique { columns, index_name } => ConstraintKindView::Unique {
                columns: views(columns@),
                index_name: index_name@,
            },
            SchemaConstraintKind::ForeignKey {
                columns,
                referenced_table,
                referenced_columns,
                on_delete,
                on_update,
            } => ConstraintKindView::ForeignKey {
                columns: views(columns@),
                referenced_table: referenced_table@,
                referenced_columns: views(referenced_columns@),
                on_delete: *on_delete,
                on_update: *on_update,
            },
            SchemaConstraintKind::Check { column_name, expression, ordinal } =>
                ConstraintKindView::Check {
                column_name: option_view(*column_name),
                expression: expression@,
                ordinal: *ordinal,
            },
        }
    }
}

impl Model for SchemaConstraintKind {
    fn same(&self, other: &Self) -> (r: bool) {
        match (self, other) {
            (
                SchemaConstraintKind::PrimaryKey { columns: a },
                SchemaConstraintKind::PrimaryKey { columns: b },
            ) => same_all(a, b),
            (
                SchemaConstraintKind::Unique { columns: a, index_name: x },
                SchemaConstraintKind::Unique { columns: b, index_name: y },
            ) => same_all(a, b) && x.same(y),
            (
                SchemaConstraintKind::ForeignKey {
                    columns: a,
                    referenced_table: t,
                    referenced_columns: c,
                    on_delete: d1,
                    on_update: u1,
                },
                SchemaConstraintKind::ForeignKey {
                    columns: b,
                    referenced_table: s,
                    referenced_columns: e,
                    on_delete: d2,
                    on_update: u2,
                },
            ) => same_all(a, b) && t.same(s) && same_all(c, e) && *d1 == *d2 && *u1 == *u2,
            (
                SchemaConstraintKind::Check { column_name: a, expression: x, ordinal: m },
                SchemaConstraintKind::Check { column_name: b, expression: y, ordinal: n },
            ) => same_option(a, b) && x.same(y) && *m == *n,
            _ => false,
        }
    }

    fn duplicate(&self) -> (r: Self) {
        match self {
            SchemaConstraintKind::PrimaryKey { columns } => SchemaConstraintKind::PrimaryKey {
                columns: duplicate_all(columns),
            },
            SchemaConstraintKind::Unique { columns, index_name } => SchemaConstraintKind::Unique {
                columns: duplicate_all(columns),
                index_name: index_name.clone(),
            },
            SchemaConstraintKind::ForeignKey {
                columns,
                referenced_table,
                referenced_columns,
                on_delete,
                on_update,
            } => SchemaConstraintKind::ForeignKey {
                columns: duplicate_all(columns),
                referenced_table: referenced_table.clone(),
                referenced_columns: duplicate_all(referenced_columns),
                on_delete: *on_delete,
                on_update: *on_update,
            },
            SchemaConstraintKind::Check { column_name, expression, ordinal } =>
                SchemaConstraintKind::Check {
                column_name: duplicate_option(column_name),
                expression: expression.clone(),
                ordinal: *ordinal,
            },
        }
    }
}

/// A constraint with its stable identity.
#[derive(Debug)]
pub struct SchemaConstraint {
    pub id: u64,
    pub name: String,
    pub kind: SchemaConstraintKind,
}

pub struct ConstraintView {
    pub id: u64,
    pub name: Seq<char>,
    pub kind: ConstraintKindView,
}

impl View for SchemaConstraint {
    type V = ConstraintView;

    open spec fn view(&self) -> ConstraintView {
        ConstraintView { id: self.id, name: self.name@, kind: self.kind@ }
    }
}

impl Model for SchemaConstraint {
    fn same(&self, other: &Self) -> (r: bool) {
        self.id == other.id && self.name.same(&other.name) && self.kind.same(&other.kind)
    }

    fn duplicate(&self) -> (r: Self) {
        SchemaConstraint { id: self.id, name: self.name.clone(), kind: self.kind.duplicate() }
    }
}

/// One table's schema.
#[derive(Debug)]
pub struct Schema {
    pub table_name: String,
    pub table_name_lower: String,
    pub catalog_id: u128,
    pub columns: Vec<SchemaColumn>,
    pub foreign_keys: Vec<ForeignKeyConstraint>,
    pub table_checks: Vec<String>,
    pub constraints: Vec<SchemaConstraint>,
    pub next_constraint_id: u64,
    pub next_check_ordinal: u32,
}

pub struct SchemaView {
    pub table_name: Seq<char>,
    pub table_name_lower: Seq<char>,
    pub catalog_id: u128,
    pub columns: Seq<ColumnView>,
    pub foreign_keys: Seq<ForeignKeyView>,
    pub table_checks: Seq<Seq<char>>,
    pub constraints: Seq<ConstraintView>,
    pub next_constraint_id: u64,
    pub next_check_ordinal: u32,
}

impl View for Schema {
    type V = SchemaView;

    open spec fn view(&self) -> SchemaView {
        SchemaView {
            table_name: self.table_name@,
            table_name_lower: self.table_name_lower@,
            catalog_id: self.catalog_id,
            columns: views(self.columns@),
            foreign_keys: views(self.foreign_keys@),
            table_checks: views(self.table_checks@),
            constraints: views(self.constraints@),
            next_constraint_id: self.next_constraint_id,
            next_check_ordinal: self.next_check_ordinal,
        }
    }
}

impl Model for Schema {
    fn same(&self, other: &Self) -> (r: bool) {
        self.catalog_id == other.catalog_id && self.next_constraint_id == other.next_constraint_id
            && self.next_check_ordinal == other.next_check_ordinal && self.table_name.same(
            &other.table_name,
        ) && self.table_name_lower.same(&other.table_name_lower) && same_all(
            &self.columns,
            &other.columns,
        ) && same_all(&self.foreign_keys, &other.foreign_keys) && same_all(
            &self.table_checks,
            &other.table_checks,
        ) && same_all(&self.constraints, &other.constraints)
    }

    fn duplicate(&self) -> (r: Self) {
        Schema {
            table_name: self.table_name.clone(),
            table_name_lower: self.table_name_lower.clone(),
            catalog_id: self.catalog_id,
            columns: duplicate_all(&self.columns),
            foreign_keys: duplicate_all(&self.foreign_keys),
            table_checks: duplicate_all(&self.table_checks),
            constraints: duplicate_all(&self.constraints),
            next_constraint_id: self.next_constraint_id,
            next_check_ordinal: self.next_check_ordinal,
        }
    }
}

/// Whether a column answers to a name.
pub open spec fn column_answers(schema: SchemaView, name: Seq<char>, i: int) -> bool {
    0 <= i < schema.columns.len() && schema.columns[i].name_lower == lowercase_text(name)
}

/// The first column that answers to a name.
pub open spec fn found_column(schema: SchemaView, name: Seq<char>, r: Option<int>) -> bool {
    match r {
        Some(i) => column_answers(schema, name, i) && forall|k: int|
            k < i ==> !#[trigger] column_answers(schema, name, k),
        None => forall|k: int| !#[trigger] column_answers(schema, name, k),
    }
}

/// The position of the first column that answers to a name.
pub open spec fn column_position(schema: SchemaView, name: Seq<char>) -> Option<int> {
    if exists|r: Option<int>| #[trigger] found_column(schema, name, r) && r is Some {
        choose|r: Option<int>| #[trigger] found_column(schema, name, r) && r is Some
    } else {
        None
    }
}

proof fn lemma_column_position(schema: SchemaView, name: Seq<char>, r: Option<int>)
    requires
        found_column(schema, name, r),
    ensures
        column_position(schema, name) == r,
{
    let p = column_position(schema, name);
    if r is Some {
        assert(found_column(schema, name, p) && p is Some);
        assert(column_answers(schema, name, p->0));
        assert(column_answers(schema, name, r->0));
    } else if p is Some {
        assert(found_column(schema, name, p));
        assert(column_answers(schema, name, p->0));
    }
}

pub open spec fn option_position(r: Option<usize>) -> Option<int> {
    match r {
        Some(i) => Some(i as int),
        None => None,
    }
}

impl Schema {
    /// Position of the column that answers to a name.
    pub fn get_column_index(&self, name: &str) -> (r: Option<usize>)
        ensures
            option_position(r) == column_position(self@, name@),
            r matches Some(i) ==> i < self.columns@.len(),
    {
        let lower: String = to_lowercase(name);
        let mut i: usize = 0;
        while i < self.columns.len()
            invariant
                0 <= i <= self.columns@.len(),
                lower@ == lowercase_text(name@),
                self@.columns.len() == self.columns@.len(),
                forall|k: int| k < i ==> !#[trigger] column_answers(self@, name@, k),
            decreases self.columns@.len() - i,
        {
            assert(self@.columns[i as int] == self.columns@[i as int]@);
            if same_text(self.columns[i].name_lower.as_str(), lower.as_str()) {
                proof {
                    assert(column_answers(self@, name@, i as int));
                    lemma_column_position(self@, name@, Some(i as int));
                }
                return Some(i);
            }
            i = i + 1;
        }
        proof {
            assert forall|k: int| !#[trigger] column_answers(self@, name@, k) by {
                if k >= i {
                }
            }
            lemma_column_position(self@, name@, None);
        }
        None
    }
}

/// Positions of the primary-key columns below `n`, in order.
pub open spec fn key_positions(columns: Seq<ColumnView>, n: int) -> Seq<int>
    decreases n,
{
    if n <= 0 {
        Seq::empty()
    } else if columns[n - 1].primary_key {
        key_positions(columns, n - 1).push(n - 1)
    } else {
        key_positions(columns, n - 1)
    }
}

pub open spec fn primary_key_positions(schema: SchemaView) -> Seq<int> {
    key_positions(schema.columns, schema.columns.len() as int)
}

pub open spec fn as_positions(s: Seq<usize>) -> Seq<int> {
    s.map_values(|i: usize| i as int)
}

impl Schema {
    /// Positions of the primary-key columns.
    pub fn primary_key_indices(&self) -> (r: Vec<usize>)
        ensures
            as_positions(r@) == primary_key_positions(self@),
            forall|i: int| 0 <= i < r@.len() ==> (#[trigger] r@[i]) < self.columns@.len(),
    {
        let mut out: Vec<usize> = Vec::new();
        let mut i: usize = 0;
        assert(as_positions(out@) =~= key_positions(self@.columns, 0));
        while i < self.columns.len()
            invariant
                0 <= i <= self.columns@.len(),
                self@.columns.len() == self.columns@.len(),
                as_positions(out@) == key_positions(self@.columns, i as int),
                forall|k: int| 0 <= k < out@.len() ==> (#[trigger] out@[k]) < self.columns@.len(),
            decreases self.columns@.len() - i,
        {
            assert(self@.columns[i as int] == self.columns@[i as int]@);
            if self.columns[i].primary_key {
                let ghost before = out@;
                out.push(i);
                assert(as_positions(out@) =~= as_positions(before).push(i as int));
            }
            i = i + 1;
        }
        out
    }
}

/// A foreign key after its target table was renamed.
pub open spec fn retargeted(
    fk: ForeignKeyView,
    old_name: Seq<char>,
    new_name: Seq<char>,
) -> ForeignKeyView {
    if same_ignoring_ascii_case(fk.referenced_table, old_name) {
        ForeignKeyView { referenced_table: new_name, ..fk }
    } else {
        fk
    }
}

/// A constraint after the table it refers to was renamed.
pub open spec fn retargeted_constraint(
    constraint: ConstraintView,
    old_name: Seq<char>,
    new_name: Seq<char>,
) -> ConstraintView {
    match constraint.kind {
        ConstraintKindView::ForeignKey {
            columns,
            referenced_table,
            referenced_columns,
            on_delete,
            on_update,
        } if same_ignoring_ascii_case(referenced_table, old_name) => ConstraintView {
            kind: ConstraintKindView::ForeignKey {
                columns,
                referenced_table: new_name,
                referenced_columns,
                on_delete,
                on_update,
            },
            ..constraint
        },
        _ => constraint,
    }
}

/// A schema after a table it may refer to was renamed.
pub open spec fn retargeted_schema(
    schema: SchemaView,
    old_name: Seq<char>,
    new_name: Seq<char>,
) -> SchemaView {
    SchemaView {
        foreign_keys: schema.foreign_keys.map_values(
            |fk: ForeignKeyView| retargeted(fk, old_name, new_name),
        ),
        constraints: schema.constraints.map_values(
            |c: ConstraintView| retargeted_constraint(c, old_name, new_name),
        ),
        ..schema
    }
}

/// Points every foreign key at a table's new name.
pub fn rename_schema_fk_target(schema: &mut Schema, old_name: &str, new_name: &str)
    ensures
        final(schema)@ == retargeted_schema(old(schema)@, old_name@, new_name@),
{
    let ghost before = schema@;
    let mut foreign_keys: Vec<ForeignKeyConstraint> = Vec::new();
    let mut i: usize = 0;
    while i < schema.foreign_keys.len()
        invariant
            0 <= i <= schema.foreign_keys@.len(),
            schema@ == before,
            foreign_keys@.len() == i,
            before.foreign_keys.len() == schema.foreign_keys@.len(),
            forall|k: int|
                0 <= k < i ==> (#[trigger] foreign_keys@[k])@ == retargeted(
                    before.foreign_keys[k],
                    old_name@,
                    new_name@,
                ),
        decreases schema.foreign_keys@.len() - i,
    {
        assert(before.foreign_keys[i as int] == schema.foreign_keys@[i as int]@);
        let mut fk: ForeignKeyConstraint = schema.foreign_keys[i].duplicate();
        if eq_ignore_ascii_case(fk.referenced_table.as_str(), old_name) {
            fk.referenced_table = String::from_str(new_name);
        }
        foreign_keys.push(fk);
        i = i + 1;
    }
    let mut constraints: Vec<SchemaConstraint> = Vec::new();
    let mut j: usize = 0;
    while j < schema.constraints.len()
        invariant
            0 <= j <= schema.constraints@.len(),
            schema@ == before,
            constraints@.len() == j,
            before.constraints.len() == schema.constraints@.len(),
            forall|k: int|
                0 <= k < j ==> (#[trigger] constraints@[k])@ == retargeted_constraint(
                    before.constraints[k],
                    old_name@,
                    new_name@,
                ),
        decreases schema.constraints@.len() - j,
    {
        assert(before.constraints[j as int] == schema.constraints@[j as int]@);
        let constraint: SchemaConstraint = schema.constraints[j].duplicate();
        let kind: SchemaConstraintKind = match constraint.kind {
            SchemaConstraintKind::ForeignKey {
                columns,
                referenced_table,
                referenced_columns,
                on_delete,
                on_update,
            } => {
                let target: String = if eq_ignore_ascii_case(referenced_table.as_str(), old_name) {
                    String::from_str(new_name)
                } else {
                    referenced_table
                };
                SchemaConstraintKind::ForeignKey {
                    columns,
                    referenced_table: target,
                    referenced_columns,
                    on_delete,
                    on_update,
                }
            },
            other => other,
        };
        constraints.push(SchemaConstraint { id: constraint.id, name: constraint.name, kind });
        j = j + 1;
    }
    schema.foreign_keys = foreign_keys;
    schema.constraints = constraints;
    assert(schema@.foreign_keys =~= retargeted_schema(
        before,
        old_name@,
        new_name@,
    ).foreign_keys);
    assert(schema@.constraints =~= retargeted_schema(before, old_name@, new_name@).constraints);
}

/// Whether a constraint is a foreign key to a table.
pub open spec fn constrains_to(constraint: ConstraintView, parent: Seq<char>) -> bool {
    constraint.kind matches ConstraintKindView::ForeignKey { referenced_table, .. }
        && referenced_table == parent
}

/// A schema without the foreign keys to a vanished table. A schema that has
/// none is left alone.
pub open spec fn stripped_schema(schema: SchemaView, parent: Seq<char>) -> SchemaView {
    if exists|i: int|
        0 <= i < schema.foreign_keys.len() && (#[trigger] schema.foreign_keys[i]).referenced_table
            == parent {
        SchemaView {
            foreign_keys: schema.foreign_keys.filter(
                |fk: ForeignKeyView| fk.referenced_table != parent,
            ),
            constraints: schema.constraints.filter(|c: ConstraintView| !constrains_to(c, parent)),
            ..schema
        }
    } else {
        schema
    }
}

pub proof fn lemma_filter_push<A>(s: Seq<A>, i: int, keep: spec_fn(A) -> bool)
    requires
        0 <= i < s.len(),
    ensures
        s.take(i + 1).filter(keep) == if keep(s[i]) {
            s.take(i).filter(keep).push(s[i])
        } else {
            s.take(i).filter(keep)
        },
{
    let longer = s.take(i + 1);
    assert(longer.drop_last() =~= s.take(i));
    reveal(Seq::filter);
}

/// Drops the foreign keys to a vanished table; tells whether there were any.
pub fn strip_parent(schema: &mut Schema, parent: &str) -> (changed: bool)
    ensures
        final(schema)@ == stripped_schema(old(schema)@, parent@),
        changed == exists|i: int|
            0 <= i < old(schema)@.foreign_keys.len() && (#[trigger] old(
                schema,
            )@.foreign_keys[i]).referenced_table == parent@,
{
    let ghost before = schema@;
    let ghost keep_key = |fk: ForeignKeyView| fk.referenced_table != parent@;
    let mut foreign_keys: Vec<ForeignKeyConstraint> = Vec::new();
    let mut changed: bool = false;
    let mut i: usize = 0;
    assert(views(foreign_keys@) =~= before.foreign_keys.take(0).filter(keep_key)) by {
        reveal(Seq::filter);
    }
    while i < schema.foreign_keys.len()
        invariant
            0 <= i <= schema.foreign_keys@.len(),
            schema@ == before,
            before.foreign_keys.len() == schema.foreign_keys@.len(),
            keep_key == (|fk: ForeignKeyView| fk.referenced_table != parent@),
            views(foreign_keys@) == before.foreign_keys.take(i as int).filter(keep_key),
            changed == exists|k: int|
                0 <= k < i && (#[trigger] before.foreign_keys[k]).referenced_table == parent@,
        decreases schema.foreign_keys@.len() - i,
    {
        proof {
            lemma_filter_push(before.foreign_keys, i as int, keep_key);
            assert(before.foreign_keys[i as int] == schema.foreign_keys@[i as int]@);
        }
        if same_text(schema.foreign_keys[i].referenced_table.as_str(), parent) {
            changed = true;
        } else {
            let ghost kept = foreign_keys@;
            let fk: ForeignKeyConstraint = schema.foreign_keys[i].duplicate();
            foreign_keys.push(fk);
            assert(views(foreign_keys@) =~= views(kept).push(fk@));
        }
        i = i + 1;
    }
    if !changed {
        return false;
    }
    let ghost keep_constraint = |c: ConstraintView| !constrains_to(c, parent@);
    let mut constraints: Vec<SchemaConstraint> = Vec::new();
    let mut j: usize = 0;
    assert(views(constraints@) =~= before.constraints.take(0).filter(keep_constraint)) by {
        reveal(Seq::filter);
    }
    while j < schema.constraints.len()
        invariant
            0 <= j <= schema.constraints@.len(),
            schema@ == before,
            before.constraints.len() == schema.constraints@.len(),
            keep_constraint == (|c: ConstraintView| !constrains_to(c, parent@)),
            views(constraints@) == before.constraints.take(j as int).filter(keep_constraint),
        decreases schema.constraints@.len() - j,
    {
        proof {
            lemma_filter_push(before.constraints, j as int, keep_constraint);
            assert(before.constraints[j as int] == schema.constraints@[j as int]@);
        }
        let constrains: bool = match &schema.constraints[j].kind {
            SchemaConstraintKind::ForeignKey { referenced_table, .. } => same_text(
                referenced_table.as_str(),
                parent,
            ),
            _ => false,
        };
        if !constrains {
            let ghost kept = constraints@;
            let constraint: SchemaConstraint = schema.constraints[j].duplicate();
            constraints.push(constraint);
            assert(views(constraints@) =~= views(kept).push(constraint@));
        }
        j = j + 1;
    }
    assert(before.foreign_keys.take(i as int) =~= before.foreign_keys);
    assert(before.constraints.take(j as int) =~= before.constraints);
    schema.foreign_keys = foreign_keys;
    schema.constraints = constraints;
    true
}

/// A column that no schema may have at this position.
pub open spec fn column_refusal(columns: Seq<ColumnView>, i: int) -> Option<ErrorView> {
    let column = columns[i];
    if column.name.len() == 0 {
        Some(ErrorView::Internal("column name cannot be empty"@))
    } else if column.auto_increment && column.data_type != DataType::Integer && column.data_type
        != DataType::Uuid {
        Some(
            ErrorView::InvalidArgument(
                "auto-increment column "@ + column.name + " must be INTEGER or UUID"@,
            ),
        )
    } else if exists|k: int| 0 <= k < i && (#[trigger] columns[k]).name_lower == column.name_lower {
        Some(ErrorView::DuplicateColumn)
    } else {
        None
    }
}

pub open spec fn column_check(columns: Seq<ColumnView>) -> spec_fn(int) -> Option<ErrorView> {
    |i: int| column_refusal(columns, i)
}

/// Why a schema cannot be published. Three of the checks are made by the
/// schema's and the log's own owners; their verdicts come in.
pub open spec fn schema_refusal(
    schema: SchemaView,
    structure: Option<ErrorView>,
    foreign_keys: Option<ErrorView>,
    persistence: Option<ErrorView>,
) -> Option<ErrorView> {
    if structure is Some {
        structure
    } else if schema.table_name.len() == 0 {
        Some(ErrorView::Internal("schema missing table name"@))
    } else if primary_key_positions(schema).len() > 1 {
        Some(
            ErrorView::NotSupported("ALTER TABLE supports exactly one PRIMARY KEY column"@),
        )
    } else {
        earlier(
            first_refusal(0, schema.columns.len() as int, column_check(schema.columns)),
            earlier(foreign_keys, persistence),
        )
    }
}

/// Verdicts of the owners that check parts of a schema.
#[derive(Debug)]
pub struct SchemaVerdicts {
    pub structure: Result<(), Error>,
    pub foreign_keys: Result<(), Error>,
    pub persistence: Result<(), Error>,
}

pub open spec fn judged(schema: SchemaView, verdicts: SchemaVerdicts) -> Option<ErrorView> {
    schema_refusal(
        schema,
        refusal(verdicts.structure),
        refusal(verdicts.foreign_keys),
        refusal(verdicts.persistence),
    )
}

fn duplicate_verdict(verdict: &Result<(), Error>) -> (r: Result<(), Error>)
    ensures
        refusal(r) == refusal(*verdict),
{
    match verdict {
        Ok(_) => Ok(()),
        Err(error) => Err(error.duplicate()),
    }
}

/// Refuses a schema that must not be published.
pub fn validate_schema(schema: &Schema, verdicts: &SchemaVerdicts) -> (r: Result<(), Error>)
    ensures
        refusal(r) == judged(schema@, *verdicts),
{
    if let Err(error) = &verdicts.structure {
        return Err(error.duplicate());
    }
    if schema.table_name.as_str().unicode_len() == 0 {
        return Err(Error::internal("schema missing table name"));
    }
    let keys: Vec<usize> = schema.primary_key_indices();
    assert(as_positions(keys@).len() == keys@.len());
    if keys.len() > 1 {
        return Err(
            Error::NotSupported(
                String::from_str("ALTER TABLE supports exactly one PRIMARY KEY column"),
            ),
        );
    }
    let ghost columns = schema@.columns;
    let mut i: usize = 0;
    while i < schema.columns.len()
        invariant
            0 <= i <= schema.columns@.len() == columns.len(),
            columns == schema@.columns,
            first_refusal(0, columns.len() as int, column_check(columns)) == first_refusal(
                i as int,
                columns.len() as int,
                column_check(columns),
            ),
            refusal(verdicts.structure) is None,
            schema@.table_name.len() != 0,
            primary_key_positions(schema@).len() <= 1,
        decreases schema.columns@.len() - i,
    {
        let column: &SchemaColumn = &schema.columns[i];
        assert(columns[i as int] == column@);
        assert(column_check(columns)(i as int) == column_refusal(columns, i as int));
        if column.name.as_str().unicode_len() == 0 {
            return Err(Error::internal("column name cannot be empty"));
        }
        if column.auto_increment && column.data_type != DataType::Integer && column.data_type
            != DataType::Uuid {
            return Err(
                Error::InvalidArgument(
                    String::from_str("auto-increment column ").concat(column.name.as_str()).concat(
                        " must be INTEGER or UUID",
                    ),
                ),
            );
        }
        let mut k: usize = 0;
        while k < i
            invariant
                0 <= k <= i < schema.columns@.len() == columns.len(),
                columns == schema@.columns,
                *column == schema.columns@[i as int],
                forall|m: int|
                    0 <= m < k ==> (#[trigger] columns[m]).name_lower != column.name_lower@,
                column_check(columns)(i as int) == column_refusal(columns, i as int),
                columns[i as int] == column@,
                first_refusal(0, columns.len() as int, column_check(columns)) == first_refusal(
                    i as int,
                    columns.len() as int,
                    column_check(columns),
                ),
                refusal(verdicts.structure) is None,
                schema@.table_name.len() != 0,
                primary_key_positions(schema@).len() <= 1,
                column@.name.len() != 0,
                !(column@.auto_increment && column@.data_type != DataType::Integer
                    && column@.data_type != DataType::Uuid),
            decreases i - k,
        {
            assert(columns[k as int] == schema.columns@[k as int]@);
            if same_text(
                schema.columns[k].name_lower.as_str(),
                column.name_lower.as_str(),
            ) {
                return Err(Error::DuplicateColumn);
            }
            k = k + 1;
        }
        i = i + 1;
    }
    if let Err(error) = &verdicts.foreign_keys {
        return Err(error.duplicate());
    }
    duplicate_verdict(&verdicts.persistence)
}

/// Private name of the index that enforces a primary key.
pub open spec fn derived_pk_name(schema: SchemaView) -> Option<Seq<char>> {
    let keys = primary_key_positions(schema);
    if keys.len() == 0 {
        None
    } else {
        Some("__pk_"@ + schema.table_name_lower + "_"@ + schema.columns[keys[0]].name)
    }
}

/// Private name of the index that enforces a primary key.
pub fn schema_derived_pk_index_name(schema: &Schema) -> (r: Option<String>)
    ensures
        option_view(r) == derived_pk_name(schema@),
{
    let keys: Vec<usize> = schema.primary_key_indices();
    assert(as_positions(keys@).len() == keys@.len());
    if keys.len() == 0 {
        return None;
    }
    let key: usize = keys[0];
    assert(as_positions(keys@)[0] == key);
    assert(schema@.columns[key as int] == schema.columns@[key as int]@);
    Some(
        String::from_str("__pk_").concat(schema.table_name_lower.as_str()).concat("_").concat(
            schema.columns[key].name.as_str(),
        ),
    )
}

/// An index as the catalog decisions read it.
#[derive(Debug)]
pub struct IndexInfo {
    pub name: String,
    pub index_type: IndexType,
    pub is_unique: bool,
    pub column_ids: Vec<i32>,
    /// Columns that a partial index's predicate refers to.
    pub predicate_columns: Option<Vec<String>>,
}

/// Content of an index description.
pub struct IndexView {
    pub name: Seq<char>,
    pub index_type: IndexType,
    pub is_unique: bool,
    pub column_ids: Seq<i32>,
    pub predicate_columns: Option<Seq<Seq<char>>>,
}

impl View for IndexInfo {
    type V = IndexView;

    open spec fn view(&self) -> IndexView {
        IndexView {
            name: self.name@,
            index_type: self.index_type,
            is_unique: self.is_unique,
            column_ids: self.column_ids@,
            predicate_columns: match self.predicate_columns {
                Some(names) => Some(views(names@)),
                None => None,
            },
        }
    }
}

impl IndexInfo {
    pub fn duplicate(&self) -> (r: Self)
        ensures
            r@ == self@,
    {
        let mut column_ids: Vec<i32> = Vec::new();
        column_ids.extend_from_slice(self.column_ids.as_slice());
        assert(column_ids@ =~= self.column_ids@);
        IndexInfo {
            name: self.name.clone(),
            index_type: self.index_type,
            is_unique: self.is_unique,
            column_ids,
            predicate_columns: match &self.predicate_columns {
                Some(names) => Some(duplicate_all(names)),
                None => None,
            },
        }
    }
}

/// Whether an index is the private owner of its table's primary key.
pub open spec fn is_derived_pk(schema: SchemaView, index: IndexInfo) -> bool {
    let keys = primary_key_positions(schema);
    index.index_type == IndexType::PrimaryKey || (keys.len() > 0 && {
        let column = schema.columns[keys[0]];
        &&& "__pk_"@.is_prefix_of(index.name@)
        &&& ("_"@ + column.name_lower).is_suffix_of(index.name@)
        &&& index.is_unique
        &&& index.column_ids@.len() == 1
        &&& index.column_ids@[0] == column.id as i32
    })
}

/// Whether an index is the private owner of its table's primary key. A
/// renamed table keeps the name of that index, so only prefix and suffix are
/// looked at.
pub fn is_schema_derived_pk_index(schema: &Schema, index: &IndexInfo) -> (r: bool)
    ensures
        r == is_derived_pk(schema@, *index),
{
    if index.index_type == IndexType::PrimaryKey {
        return true;
    }
    let keys: Vec<usize> = schema.primary_key_indices();
    assert(as_positions(keys@).len() == keys@.len());
    if keys.len() == 0 {
        return false;
    }
    let key: usize = keys[0];
    assert(as_positions(keys@)[0] == key);
    let column: &SchemaColumn = &schema.columns[key];
    assert(schema@.columns[key as int] == column@);
    let suffix: String = String::from_str("_").concat(column.name_lower.as_str());
    crate::text::starts_with(index.name.as_str(), "__pk_") && crate::text::ends_with(
        index.name.as_str(),
        suffix.as_str(),
    ) && index.is_unique && index.column_ids.len() == 1 && index.column_ids[0]
        == column.id as i32
}

} // verus!
