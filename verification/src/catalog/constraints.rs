//! Constraints of a table, bound from its catalog objects.
use super::objects::column_at;
use super::objects::column_views;
use super::objects::find_column;
use super::objects::has_id;
use super::objects::CatalogAction;
use super::objects::ConstraintPayload;
use super::objects::Edge;
use super::objects::EdgeKind;
use super::objects::Generation;
use super::objects::Object;
use super::objects::Payload;
use super::objects::RuntimeColumn;
use super::objects::RuntimeColumnView;
use crate::error::Error;
use crate::error::ErrorView;
use crate::model::views;
use crate::schema::ConstraintKindView;
use crate::schema::ConstraintView;
use crate::schema::ForeignKeyAction;
use crate::schema::ForeignKeyConstraint;
use crate::schema::ForeignKeyView;
use crate::schema::SchemaConstraint;
use crate::schema::SchemaConstraintKind;
use crate::sort::sorted;
use crate::sort::SortKey;
use crate::text::eq_ignore_ascii_case;
use crate::text::same_ignoring_ascii_case;
use vstd::prelude::*;
use vstd::string::StringExecFns;

verus! {

/// Pairs of an ordinal and an identity are ordered by both.
impl SortKey for (u32, u128) {
    open spec fn leq(self, other: Self) -> bool {
        self.0 < other.0 || (self.0 == other.0 && self.1 <= other.1)
    }

    proof fn lemma_total(a: Self, b: Self) {
    }

    proof fn lemma_transitive(a: Self, b: Self, c: Self) {
    }

    fn is_leq(&self, other: &Self) -> (r: bool) {
        self.0 < other.0 || (self.0 == other.0 && self.1 <= other.1)
    }
}

/// Whether an edge says that a table contains one of its constraints.
pub open spec fn contains_constraint(table_id: u128, listed: Seq<u128>, edge: Edge) -> bool {
    edge.source == table_id && edge.kind == EdgeKind::Contains && listed.contains(edge.target)
}

/// Ordinals and constraints among the first `n` edges.
pub open spec fn contained(table_id: u128, listed: Seq<u128>, edges: Seq<Edge>, n: int) -> Seq<
    (u32, u128),
>
    decreases n,
{
    if n <= 0 {
        Seq::empty()
    } else {
        let rest = contained(table_id, listed, edges, n - 1);
        if contains_constraint(table_id, listed, edges[n - 1]) {
            rest.push((edges[n - 1].ordinal, edges[n - 1].target))
        } else {
            rest
        }
    }
}

/// How many different identities the first `n` positions hold.
pub open spec fn distinct_count(ids: Seq<u128>, n: int) -> nat
    decreases n,
{
    if n <= 0 {
        0
    } else if ids.take(n - 1).contains(ids[n - 1]) {
        distinct_count(ids, n - 1)
    } else {
        distinct_count(ids, n - 1) + 1
    }
}

pub open spec fn pair_order() -> spec_fn((u32, u128), (u32, u128)) -> bool {
    |a: (u32, u128), b: (u32, u128)| a.leq(b)
}

/// A table's constraints in the order of their ordinals.
pub open spec fn constraint_order(g: Generation, table_id: u128, listed: Seq<u128>) -> Result<
    Seq<u128>,
    ErrorView,
> {
    let pairs = contained(table_id, listed, g.edges@, g.edges@.len() as int);
    if pairs.len() != distinct_count(listed, listed.len() as int) {
        Err(ErrorView::Internal("table constraint list differs from containment graph"@))
    } else {
        Ok(pairs.sort_by(pair_order()).map_values(|p: (u32, u128)| p.1))
    }
}

fn count_distinct(ids: &Vec<u128>) -> (n: usize)
    ensures
        n == distinct_count(ids@, ids@.len() as int),
{
    let mut seen: Vec<u128> = Vec::new();
    let mut count: usize = 0;
    let mut i: usize = 0;
    while i < ids.len()
        invariant
            0 <= i <= ids@.len(),
            seen@ == ids@.take(i as int),
            count == distinct_count(ids@, i as int),
            count <= i,
        decreases ids@.len() - i,
    {
        if !has_id(&seen, ids[i]) {
            count = count + 1;
        }
        seen.push(ids[i]);
        assert(seen@ =~= ids@.take(i + 1));
        i = i + 1;
    }
    count
}

/// Identities of a table's constraints, in the order the catalog numbers them.
pub fn ordered_constraint_ids(g: &Generation, table_id: u128, listed: &Vec<u128>) -> (r: Result<
    Vec<u128>,
    Error,
>)
    ensures
        match r {
            Ok(ids) => constraint_order(*g, table_id, listed@) == Ok::<Seq<u128>, ErrorView>(ids@),
            Err(e) => constraint_order(*g, table_id, listed@) == Err::<Seq<u128>, ErrorView>(e@),
        },
{
    let mut pairs: Vec<(u32, u128)> = Vec::new();
    let mut i: usize = 0;
    while i < g.edges.len()
        invariant
            0 <= i <= g.edges@.len(),
            pairs@ == contained(table_id, listed@, g.edges@, i as int),
        decreases g.edges@.len() - i,
    {
        let edge: Edge = g.edges[i];
        if edge.source == table_id && edge.kind == EdgeKind::Contains && has_id(
            listed,
            edge.target,
        ) {
            pairs.push((edge.ordinal, edge.target));
        }
        i = i + 1;
    }
    let ghost given = pairs@;
    if pairs.len() != count_distinct(listed) {
        return Err(Error::internal("table constraint list differs from containment graph"));
    }
    let ordered: Vec<(u32, u128)> = sorted(pairs);
    proof {
        let leq = pair_order();
        assert(vstd::relations::total_ordering(leq));
        given.lemma_sort_by_ensures(leq);
        assert(vstd::relations::sorted_by(ordered@, leq));
        vstd::seq_lib::lemma_sorted_unique(ordered@, given.sort_by(leq), leq);
    }
    let mut ids: Vec<u128> = Vec::new();
    let mut k: usize = 0;
    while k < ordered.len()
        invariant
            0 <= k <= ordered@.len(),
            ids@.len() == k,
            forall|m: int| 0 <= m < k ==> #[trigger] ids@[m] == ordered@[m].1,
        decreases ordered@.len() - k,
    {
        ids.push(ordered[k].1);
        k = k + 1;
    }
    assert(ids@ =~= ordered@.map_values(|p: (u32, u128)| p.1));
    Ok(ids)
}

/// Names of columns from position `i` of a list on.
pub open spec fn named_columns(columns: Seq<RuntimeColumnView>, ids: Seq<u128>, i: int) -> Result<
    Seq<Seq<char>>,
    ErrorView,
>
    decreases ids.len() - i,
{
    if i < 0 || i >= ids.len() {
        Ok(Seq::empty())
    } else {
        match column_at(columns, ids[i], 0) {
            None => Err(ErrorView::Internal("constraint references a non-table column"@)),
            Some(c) => match named_columns(columns, ids, i + 1) {
                Err(e) => Err(e),
                Ok(rest) => Ok(seq![c.name] + rest),
            },
        }
    }
}

pub fn resolve_column_names(columns: &Vec<RuntimeColumn>, ids: &Vec<u128>) -> (r: Result<
    Vec<String>,
    Error,
>)
    ensures
        match r {
            Ok(names) => named_columns(column_views(columns@), ids@, 0) == Ok::<
                Seq<Seq<char>>,
                ErrorView,
            >(views(names@)),
            Err(e) => named_columns(column_views(columns@), ids@, 0) == Err::<
                Seq<Seq<char>>,
                ErrorView,
            >(e@),
        },
{
    let ghost all = column_views(columns@);
    let mut names: Vec<String> = Vec::new();
    let mut i: usize = 0;
    proof {
        if let Ok(rest) = named_columns(all, ids@, 0) {
            assert(views(names@) + rest =~= rest);
        }
    }
    while i < ids.len()
        invariant
            0 <= i <= ids@.len(),
            all == column_views(columns@),
            named_columns(all, ids@, 0) == match named_columns(all, ids@, i as int) {
                Err(e) => Err::<Seq<Seq<char>>, ErrorView>(e),
                Ok(rest) => Ok(views(names@) + rest),
            },
        decreases ids@.len() - i,
    {
        let ghost done = views(names@);
        match find_column(columns, ids[i]) {
            None => {
                return Err(Error::internal("constraint references a non-table column"));
            },
            Some(column) => {
                names.push(column.name.clone());
                proof {
                    assert(views(names@) =~= done.push(column.name@));
                    if let Ok(rest) = named_columns(all, ids@, i + 1) {
                        assert(done + (seq![column.name@] + rest) =~= views(names@) + rest);
                    }
                }
            },
        }
        i = i + 1;
    }
    assert(views(names@) + Seq::<Seq<char>>::empty() =~= views(names@));
    Ok(names)
}

/// Name of the index at the source of an edge, where it is one that a
/// constraint owns.
pub open spec fn owning_index(g: Generation, id: u128, edge: Edge) -> Option<Seq<char>> {
    if edge.target != id || edge.kind != EdgeKind::DependsOn {
        None
    } else {
        match g.lookup(edge.source) {
            Some(o) => if o.payload is Index {
                Some(o.display@)
            } else {
                None
            },
            None => None,
        }
    }
}

/// Names of the indexes of a constraint among the first `n` edges.
pub open spec fn owning_indexes(g: Generation, id: u128, n: int) -> Seq<Seq<char>>
    decreases n,
{
    if n <= 0 {
        Seq::empty()
    } else {
        match owning_index(g, id, g.edges@[n - 1]) {
            Some(name) => owning_indexes(g, id, n - 1).push(name),
            None => owning_indexes(g, id, n - 1),
        }
    }
}

pub open spec fn owned_index(g: Generation, id: u128) -> Result<Seq<char>, ErrorView> {
    let names = owning_indexes(g, id, g.edges@.len() as int);
    if names.len() == 0 {
        Err(ErrorView::Internal("UNIQUE constraint has no owning index"@))
    } else if names.len() > 1 {
        Err(ErrorView::Internal("UNIQUE constraint has more than one owning index"@))
    } else {
        Ok(names[0])
    }
}

/// Name of the one index that serves a unique constraint.
pub fn constraint_index_name(g: &Generation, id: u128) -> (r: Result<String, Error>)
    ensures
        match r {
            Ok(name) => owned_index(*g, id) == Ok::<Seq<char>, ErrorView>(name@),
            Err(e) => owned_index(*g, id) == Err::<Seq<char>, ErrorView>(e@),
        },
{
    let mut names: Vec<String> = Vec::new();
    let mut i: usize = 0;
    assert(views(names@) =~= owning_indexes(*g, id, 0));
    while i < g.edges.len()
        invariant
            0 <= i <= g.edges@.len(),
            views(names@) == owning_indexes(*g, id, i as int),
        decreases g.edges@.len() - i,
    {
        let ghost before = names@;
        let edge: Edge = g.edges[i];
        if edge.target == id && edge.kind == EdgeKind::DependsOn {
            match g.object(edge.source) {
                Some(object) => match &object.payload {
                    Payload::Index(_) => {
                        names.push(object.display.clone());
                        assert(views(names@) =~= views(before).push(object.display@));
                    },
                    _ => {},
                },
                None => {},
            }
        }
        i = i + 1;
    }
    assert(views(names@).len() == names@.len());
    if names.len() == 0 {
        return Err(Error::internal("UNIQUE constraint has no owning index"));
    }
    if names.len() > 1 {
        return Err(Error::internal("UNIQUE constraint has more than one owning index"));
    }
    assert(views(names@)[0] == names@[0]@);
    Ok(names[0].clone())
}

pub open spec fn bound_action(action: CatalogAction) -> Result<ForeignKeyAction, ErrorView> {
    match action {
        CatalogAction::NoAction => Ok(ForeignKeyAction::NoAction),
        CatalogAction::Restrict => Ok(ForeignKeyAction::Restrict),
        CatalogAction::Cascade => Ok(ForeignKeyAction::Cascade),
        CatalogAction::SetNull => Ok(ForeignKeyAction::SetNull),
        CatalogAction::SetDefault => Err(
            ErrorView::NotSupported(
                "SET DEFAULT foreign-key catalog recovery is not implemented"@,
            ),
        ),
    }
}

pub fn bind_foreign_key_action(action: CatalogAction) -> (r: Result<ForeignKeyAction, Error>)
    ensures
        match r {
            Ok(a) => bound_action(action) == Ok::<ForeignKeyAction, ErrorView>(a),
            Err(e) => bound_action(action) == Err::<ForeignKeyAction, ErrorView>(e@),
        },
{
    match action {
        CatalogAction::NoAction => Ok(ForeignKeyAction::NoAction),
        CatalogAction::Restrict => Ok(ForeignKeyAction::Restrict),
        CatalogAction::Cascade => Ok(ForeignKeyAction::Cascade),
        CatalogAction::SetNull => Ok(ForeignKeyAction::SetNull),
        CatalogAction::SetDefault => Err(
            Error::NotSupported(
                String::from_str("SET DEFAULT foreign-key catalog recovery is not implemented"),
            ),
        ),
    }
}

/// Where a foreign key leads from and to.
pub struct KeyEnds {
    pub local: Seq<u128>,
    pub table: u128,
    pub referenced: Seq<u128>,
    pub on_update: CatalogAction,
    pub on_delete: CatalogAction,
}

/// A foreign key as a row check and as a named constraint.
pub struct BoundKey {
    pub key: ForeignKeyView,
    pub kind: ConstraintKindView,
}

pub open spec fn bound_key(g: Generation, columns: Seq<RuntimeColumnView>, ends: KeyEnds) -> Result<
    BoundKey,
    ErrorView,
> {
    if ends.local.len() != 1 || ends.referenced.len() != 1 {
        Err(
            ErrorView::NotSupported("composite foreign-key catalog recovery is not implemented"@),
        )
    } else {
        match column_at(columns, ends.local[0], 0) {
            None => Err(ErrorView::Internal("foreign-key local column disappeared"@)),
            Some(local) => match g.lookup(ends.table) {
                None => Err(ErrorView::Internal("foreign-key target table disappeared"@)),
                Some(table) => match g.lookup(ends.referenced[0]) {
                    None => Err(ErrorView::Internal("foreign-key target column disappeared"@)),
                    Some(column) => match (
                        bound_action(ends.on_update),
                        bound_action(ends.on_delete),
                    ) {
                        (Err(e), _) => Err(e),
                        (Ok(_), Err(e)) => Err(e),
                        (Ok(on_update), Ok(on_delete)) => Ok(
                            BoundKey {
                                key: ForeignKeyView {
                                    column_index: local.ordinal,
                                    column_name: local.name,
                                    referenced_table: table.normalized@,
                                    referenced_column: column.normalized@,
                                    on_delete,
                                    on_update,
                                },
                                kind: ConstraintKindView::ForeignKey {
                                    columns: seq![local.name],
                                    referenced_table: table.display@,
                                    referenced_columns: seq![column.display@],
                                    on_delete,
                                    on_update,
                                },
                            },
                        ),
                    },
                },
            },
        }
    }
}

/// A single-column foreign key.
pub fn bind_foreign_key(
    g: &Generation,
    columns: &Vec<RuntimeColumn>,
    local_column_ids: &Vec<u128>,
    referenced_table_id: u128,
    referenced_column_ids: &Vec<u128>,
    on_update_action: CatalogAction,
    on_delete_action: CatalogAction,
) -> (r: Result<(ForeignKeyConstraint, SchemaConstraintKind), Error>)
    ensures
        bound_key(
            *g,
            column_views(columns@),
            (KeyEnds {
                local: local_column_ids@,
                table: referenced_table_id,
                referenced: referenced_column_ids@,
                on_update: on_update_action,
                on_delete: on_delete_action,
            }),
        ) == match r {
            Ok(b) => Ok::<BoundKey, ErrorView>(BoundKey { key: b.0@, kind: b.1@ }),
            Err(e) => Err::<BoundKey, ErrorView>(e@),
        },
{
    if local_column_ids.len() != 1 || referenced_column_ids.len() != 1 {
        return Err(
            Error::NotSupported(
                String::from_str("composite foreign-key catalog recovery is not implemented"),
            ),
        );
    }
    let local: &RuntimeColumn = match find_column(columns, local_column_ids[0]) {
        Some(c) => c,
        None => {
            return Err(Error::internal("foreign-key local column disappeared"));
        },
    };
    let table: &Object = match g.object(referenced_table_id) {
        Some(o) => o,
        None => {
            return Err(Error::internal("foreign-key target table disappeared"));
        },
    };
    let column: &Object = match g.object(referenced_column_ids[0]) {
        Some(o) => o,
        None => {
            return Err(Error::internal("foreign-key target column disappeared"));
        },
    };
    let on_update: ForeignKeyAction = match bind_foreign_key_action(on_update_action) {
        Ok(a) => a,
        Err(e) => {
            return Err(e);
        },
    };
    let on_delete: ForeignKeyAction = match bind_foreign_key_action(on_delete_action) {
        Ok(a) => a,
        Err(e) => {
            return Err(e);
        },
    };
    let key = ForeignKeyConstraint {
        column_index: local.ordinal,
        column_name: local.name.clone(),
        referenced_table: table.normalized.clone(),
        referenced_column: column.normalized.clone(),
        on_delete,
        on_update,
    };
    let mut local_names: Vec<String> = Vec::new();
    local_names.push(local.name.clone());
    let mut referenced_names: Vec<String> = Vec::new();
    referenced_names.push(column.display.clone());
    assert(views(local_names@) =~= seq![local.name@]);
    assert(views(referenced_names@) =~= seq![column.display@]);
    let kind = SchemaConstraintKind::ForeignKey {
        columns: local_names,
        referenced_table: table.display.clone(),
        referenced_columns: referenced_names,
        on_delete,
        on_update,
    };
    Ok((key, kind))
}

/// A check on one column.
#[derive(Debug)]
pub struct ColumnCheck {
    pub column: String,
    pub expression: String,
}

#[verifier::ext_equal]
pub struct ColumnCheckView {
    pub column: Seq<char>,
    pub expression: Seq<char>,
}

impl View for ColumnCheck {
    type V = ColumnCheckView;

    open spec fn view(&self) -> ColumnCheckView {
        ColumnCheckView { column: self.column@, expression: self.expression@ }
    }
}

/// What the constraints of a table amount to.
#[derive(Debug)]
pub struct BoundConstraints {
    pub foreign_keys: Vec<ForeignKeyConstraint>,
    pub column_checks: Vec<ColumnCheck>,
    pub table_checks: Vec<String>,
    pub catalog: Vec<SchemaConstraint>,
    pub next_id: u64,
    pub next_check_ordinal: u32,
}

#[verifier::ext_equal]
pub struct BoundView {
    pub foreign_keys: Seq<ForeignKeyView>,
    pub column_checks: Seq<ColumnCheckView>,
    pub table_checks: Seq<Seq<char>>,
    pub catalog: Seq<ConstraintView>,
    pub next_id: u64,
    pub next_check_ordinal: u32,
}

impl View for BoundConstraints {
    type V = BoundView;

    open spec fn view(&self) -> BoundView {
        BoundView {
            foreign_keys: views(self.foreign_keys@),
            column_checks: views(self.column_checks@),
            table_checks: views(self.table_checks@),
            catalog: views(self.catalog@),
            next_id: self.next_id,
            next_check_ordinal: self.next_check_ordinal,
        }
    }
}

pub open spec fn no_constraints() -> BoundView {
    BoundView {
        foreign_keys: Seq::empty(),
        column_checks: Seq::empty(),
        table_checks: Seq::empty(),
        catalog: Seq::empty(),
        next_id: 1,
        next_check_ordinal: 1,
    }
}

/// Records a constraint under the next identity.
pub open spec fn numbered(bound: BoundView, name: Seq<char>, kind: ConstraintKindView) -> Result<
    BoundView,
    ErrorView,
> {
    if bound.next_id == u64::MAX {
        Err(ErrorView::Internal("runtime constraint identity overflow"@))
    } else {
        Ok(
            BoundView {
                catalog: bound.catalog.push(ConstraintView { id: bound.next_id, name, kind }),
                next_id: (bound.next_id + 1) as u64,
                ..bound
            },
        )
    }
}

pub open spec fn checks_column(checks: Seq<ColumnCheckView>, name: Seq<char>) -> bool {
    exists|i: int|
        0 <= i < checks.len() && same_ignoring_ascii_case((#[trigger] checks[i]).column, name)
}

/// Records a check of a column or of the whole row.
pub open spec fn checked(
    columns: Seq<RuntimeColumnView>,
    bound: BoundView,
    name: Seq<char>,
    column_id: Option<u128>,
    expression: Seq<char>,
) -> Result<BoundView, ErrorView> {
    let ordinal = bound.next_check_ordinal;
    if ordinal == u32::MAX {
        Err(ErrorView::Internal("CHECK ordinal overflow"@))
    } else {
        let counted = BoundView { next_check_ordinal: (ordinal + 1) as u32, ..bound };
        match column_id {
            None => numbered(
                BoundView { table_checks: counted.table_checks.push(expression), ..counted },
                name,
                ConstraintKindView::Check { column_name: None, expression, ordinal },
            ),
            Some(id) => match column_at(columns, id, 0) {
                None => Err(ErrorView::Internal("CHECK column disappeared"@)),
                Some(c) => if checks_column(bound.column_checks, c.name) {
                    Err(
                        ErrorView::InvalidArgument(
                            "column '"@ + c.name + "' has more than one CHECK constraint"@,
                        ),
                    )
                } else {
                    numbered(
                        BoundView {
                            column_checks: counted.column_checks.push(
                                ColumnCheckView { column: c.name, expression },
                            ),
                            ..counted
                        },
                        name,
                        ConstraintKindView::Check {
                            column_name: Some(c.name),
                            expression,
                            ordinal,
                        },
                    )
                },
            },
        }
    }
}

/// What one more constraint adds.
pub open spec fn with_constraint(
    g: Generation,
    columns: Seq<RuntimeColumnView>,
    bound: BoundView,
    id: u128,
) -> Result<BoundView, ErrorView> {
    match g.lookup(id) {
        None => Err(ErrorView::Internal("catalog constraint disappeared"@)),
        Some(o) => match o.payload {
            Payload::Constraint(payload) => match payload {
                ConstraintPayload::PrimaryKey { column_ids } => match named_columns(
                    columns,
                    column_ids@,
                    0,
                ) {
                    Err(e) => Err(e),
                    Ok(names) => numbered(
                        bound,
                        o.display@,
                        ConstraintKindView::PrimaryKey { columns: names },
                    ),
                },
                ConstraintPayload::Unique { column_ids } => match (
                    named_columns(columns, column_ids@, 0),
                    owned_index(g, id),
                ) {
                    (Err(e), _) => Err(e),
                    (Ok(_), Err(e)) => Err(e),
                    (Ok(names), Ok(index_name)) => numbered(
                        bound,
                        o.display@,
                        ConstraintKindView::Unique { columns: names, index_name },
                    ),
                },
                ConstraintPayload::ForeignKey {
                    column_ids,
                    referenced_table_id,
                    referenced_column_ids,
                    on_update,
                    on_delete,
                } => match bound_key(
                    g,
                    columns,
                    KeyEnds {
                        local: column_ids@,
                        table: referenced_table_id,
                        referenced: referenced_column_ids@,
                        on_update,
                        on_delete,
                    },
                ) {
                    Err(e) => Err(e),
                    Ok(b) => numbered(
                        BoundView { foreign_keys: bound.foreign_keys.push(b.key), ..bound },
                        o.display@,
                        b.kind,
                    ),
                },
                ConstraintPayload::Check { column_id, sql } => checked(
                    columns,
                    bound,
                    o.display@,
                    column_id,
                    sql@,
                ),
                ConstraintPayload::NotNull => Ok(bound),
            },
            _ => Err(ErrorView::Internal("catalog constraint has wrong payload"@)),
        },
    }
}

/// What the constraints from position `i` on add.
pub open spec fn with_constraints(
    g: Generation,
    columns: Seq<RuntimeColumnView>,
    bound: BoundView,
    ids: Seq<u128>,
    i: int,
) -> Result<BoundView, ErrorView>
    decreases ids.len() - i,
{
    if i < 0 || i >= ids.len() {
        Ok(bound)
    } else {
        match with_constraint(g, columns, bound, ids[i]) {
            Err(e) => Err(e),
            Ok(next) => with_constraints(g, columns, next, ids, i + 1),
        }
    }
}

/// All constraints of a table.
pub open spec fn table_constraints(
    g: Generation,
    columns: Seq<RuntimeColumnView>,
    table_id: u128,
    listed: Seq<u128>,
) -> Result<BoundView, ErrorView> {
    match constraint_order(g, table_id, listed) {
        Err(e) => Err(e),
        Ok(ids) => with_constraints(g, columns, no_constraints(), ids, 0),
    }
}

/// The outcome of a step that changes what is bound.
pub open spec fn step_result(r: Result<(), Error>, bound: BoundView) -> Result<
    BoundView,
    ErrorView,
> {
    match r {
        Ok(_) => Ok(bound),
        Err(e) => Err(e@),
    }
}

impl BoundConstraints {
    fn record(&mut self, name: String, kind: SchemaConstraintKind) -> (r: Result<(), Error>)
        ensures
            numbered(old(self)@, name@, kind@) == step_result(r, final(self)@),
    {
        let ghost before = self.catalog@;
        if self.next_id == u64::MAX {
            return Err(Error::internal("runtime constraint identity overflow"));
        }
        let id: u64 = self.next_id;
        let constraint = SchemaConstraint { id, name, kind };
        let ghost seen = constraint@;
        self.catalog.push(constraint);
        self.next_id = id + 1;
        assert(views(self.catalog@) =~= views(before).push(seen));
        Ok(())
    }

    fn has_check(&self, name: &str) -> (r: bool)
        ensures
            r == checks_column(self@.column_checks, name@),
    {
        let mut i: usize = 0;
        while i < self.column_checks.len()
            invariant
                0 <= i <= self.column_checks@.len(),
                forall|k: int|
                    0 <= k < i ==> !same_ignoring_ascii_case(
                        (#[trigger] self@.column_checks[k]).column,
                        name@,
                    ),
            decreases self.column_checks@.len() - i,
        {
            assert(self@.column_checks[i as int] == self.column_checks@[i as int]@);
            if eq_ignore_ascii_case(self.column_checks[i].column.as_str(), name) {
                return true;
            }
            i = i + 1;
        }
        false
    }

    fn record_check(
        &mut self,
        columns: &Vec<RuntimeColumn>,
        name: String,
        column_id: Option<u128>,
        sql: &String,
    ) -> (r: Result<(), Error>)
        ensures
            checked(column_views(columns@), old(self)@, name@, column_id, sql@) == step_result(
                r,
                final(self)@,
            ),
    {
        let ordinal: u32 = self.next_check_ordinal;
        if ordinal == u32::MAX {
            return Err(Error::internal("CHECK ordinal overflow"));
        }
        let column_name: Option<String> = match column_id {
            None => None,
            Some(id) => match find_column(columns, id) {
                Some(column) => Some(column.name.clone()),
                None => {
                    return Err(Error::internal("CHECK column disappeared"));
                },
            },
        };
        match &column_name {
            Some(column) => {
                if self.has_check(column.as_str()) {
                    let message: String = String::from_str("column '").concat(
                        column.as_str(),
                    ).concat("' has more than one CHECK constraint");
                    return Err(Error::InvalidArgument(message));
                }
                let ghost before = self.column_checks@;
                let check = ColumnCheck { column: column.clone(), expression: sql.clone() };
                let ghost seen = check@;
                self.column_checks.push(check);
                assert(views(self.column_checks@) =~= views(before).push(seen));
            },
            None => {
                let ghost before = self.table_checks@;
                self.table_checks.push(sql.clone());
                assert(views(self.table_checks@) =~= views(before).push(sql@));
            },
        }
        self.next_check_ordinal = ordinal + 1;
        let kind = SchemaConstraintKind::Check { column_name, expression: sql.clone(), ordinal };
        self.record(name, kind)
    }

    fn bind_one(&mut self, g: &Generation, columns: &Vec<RuntimeColumn>, id: u128) -> (r: Result<
        (),
        Error,
    >)
        ensures
            with_constraint(*g, column_views(columns@), old(self)@, id) == step_result(
                r,
                final(self)@,
            ),
    {
        let object: &Object = match g.object(id) {
            Some(o) => o,
            None => {
                return Err(Error::internal("catalog constraint disappeared"));
            },
        };
        let payload: &ConstraintPayload = match &object.payload {
            Payload::Constraint(p) => p,
            _ => {
                return Err(Error::internal("catalog constraint has wrong payload"));
            },
        };
        match payload {
            ConstraintPayload::PrimaryKey { column_ids } => {
                let names: Vec<String> = match resolve_column_names(columns, column_ids) {
                    Ok(names) => names,
                    Err(e) => {
                        return Err(e);
                    },
                };
                self.record(
                    object.display.clone(),
                    SchemaConstraintKind::PrimaryKey { columns: names },
                )
            },
            ConstraintPayload::Unique { column_ids } => {
                let names: Vec<String> = match resolve_column_names(columns, column_ids) {
                    Ok(names) => names,
                    Err(e) => {
                        return Err(e);
                    },
                };
                let index_name: String = match constraint_index_name(g, id) {
                    Ok(name) => name,
                    Err(e) => {
                        return Err(e);
                    },
                };
                self.record(
                    object.display.clone(),
                    SchemaConstraintKind::Unique { columns: names, index_name },
                )
            },
            ConstraintPayload::ForeignKey {
                column_ids,
                referenced_table_id,
                referenced_column_ids,
                on_update,
                on_delete,
            } => {
                let (key, kind) = match bind_foreign_key(
                    g,
                    columns,
                    column_ids,
                    *referenced_table_id,
                    referenced_column_ids,
                    *on_update,
                    *on_delete,
                ) {
                    Ok(bound) => bound,
                    Err(e) => {
                        return Err(e);
                    },
                };
                let ghost before = self.foreign_keys@;
                let ghost seen = key@;
                self.foreign_keys.push(key);
                assert(views(self.foreign_keys@) =~= views(before).push(seen));
                self.record(object.display.clone(), kind)
            },
            ConstraintPayload::Check { column_id, sql } => self.record_check(
                columns,
                object.display.clone(),
                *column_id,
                sql,
            ),
            ConstraintPayload::NotNull => Ok(()),
        }
    }
}

/// The constraints of a table, numbered from one in their catalog order.
pub fn bind_constraints(
    g: &Generation,
    columns: &Vec<RuntimeColumn>,
    table_id: u128,
    listed: &Vec<u128>,
) -> (r: Result<BoundConstraints, Error>)
    ensures
        table_constraints(*g, column_views(columns@), table_id, listed@) == match r {
            Ok(b) => Ok::<BoundView, ErrorView>(b@),
            Err(e) => Err::<BoundView, ErrorView>(e@),
        },
{
    let ids: Vec<u128> = match ordered_constraint_ids(g, table_id, listed) {
        Ok(ids) => ids,
        Err(e) => {
            return Err(e);
        },
    };
    let ghost all = column_views(columns@);
    let mut bound = BoundConstraints {
        foreign_keys: Vec::new(),
        column_checks: Vec::new(),
        table_checks: Vec::new(),
        catalog: Vec::new(),
        next_id: 1,
        next_check_ordinal: 1,
    };
    assert(bound@ =~= no_constraints());
    let mut i: usize = 0;
    while i < ids.len()
        invariant
            0 <= i <= ids@.len(),
            all == column_views(columns@),
            constraint_order(*g, table_id, listed@) == Ok::<Seq<u128>, ErrorView>(ids@),
            with_constraints(*g, all, no_constraints(), ids@, 0) == with_constraints(
                *g,
                all,
                bound@,
                ids@,
                i as int,
            ),
        decreases ids@.len() - i,
    {
        match bound.bind_one(g, columns, ids[i]) {
            Ok(_) => {},
            Err(e) => {
                return Err(e);
            },
        }
        i = i + 1;
    }
    Ok(bound)
}

/// Constraints are numbered from one without a gap.
pub open spec fn consecutive(bound: BoundView) -> bool {
    &&& bound.next_id == bound.catalog.len() + 1
    &&& forall|k: int| 0 <= k < bound.catalog.len() ==> (#[trigger] bound.catalog[k]).id == k + 1
}

proof fn lemma_consecutive_step(
    g: Generation,
    columns: Seq<RuntimeColumnView>,
    bound: BoundView,
    id: u128,
)
    requires
        consecutive(bound),
    ensures
        with_constraint(g, columns, bound, id) matches Ok(next) ==> consecutive(next),
{
}

proof fn lemma_consecutive(
    g: Generation,
    columns: Seq<RuntimeColumnView>,
    bound: BoundView,
    ids: Seq<u128>,
    i: int,
)
    requires
        consecutive(bound),
    ensures
        with_constraints(g, columns, bound, ids, i) matches Ok(last) ==> consecutive(last),
    decreases ids.len() - i,
{
    if 0 <= i < ids.len() {
        lemma_consecutive_step(g, columns, bound, ids[i]);
        if let Ok(next) = with_constraint(g, columns, bound, ids[i]) {
            lemma_consecutive(g, columns, next, ids, i + 1);
        }
    }
}

/// The constraints of a table carry the identities one, two, three and so on,
/// and the next one to be created carries the identity after them.
pub proof fn law_constraints_are_numbered_consecutively(
    g: Generation,
    columns: Seq<RuntimeColumnView>,
    table_id: u128,
    listed: Seq<u128>,
)
    requires
        table_constraints(g, columns, table_id, listed) is Ok,
    ensures
        consecutive(table_constraints(g, columns, table_id, listed)->Ok_0),
{
    if let Ok(ids) = constraint_order(g, table_id, listed) {
        lemma_consecutive(g, columns, no_constraints(), ids, 0);
    }
}

} // verus!
