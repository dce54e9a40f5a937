//! Runtime state that is bound from one catalog generation.
use crate::error::refusal;
use crate::error::Error;
use crate::error::ErrorView;
use crate::schema::DataType;
use crate::schema::IndexType;
use crate::schema::Schema;
use crate::sort::is_permutation;
use crate::sort::is_sorted;
use crate::sort::lemma_permutation;
use crate::sort::sorted;
use crate::sort::SortKey;
use crate::text::eq_ignore_ascii_case;
use crate::text::is_text_before;
use crate::text::lemma_text_before_total;
use crate::text::lemma_text_before_transitive;
use crate::text::same_ignoring_ascii_case;
use crate::text::same_text;
use crate::text::text_before;
use crate::view::ViewDefinition;
use vstd::prelude::*;
use vstd::string::StringExecFns;

verus! {

/// Parameters of a vector index.
#[derive(Debug, Clone, Copy, PartialEq, Eq, Structural)]
pub struct HnswParameters {
    pub m: u32,
    pub ef_construction: u32,
    pub ef_search: u32,
    pub distance_metric: u8,
}

/// An index bound to its table.
#[derive(Debug)]
pub struct IndexDefinition {
    pub name: String,
    pub table_name: String,
    pub column_names: Vec<String>,
    pub column_ids: Vec<i32>,
    pub data_types: Vec<DataType>,
    pub is_unique: bool,
    pub index_type: IndexType,
    pub hnsw: Option<HnswParameters>,
    pub partial_predicate: Option<String>,
}

/// A table with its indexes.
#[derive(Debug)]
pub struct CatalogRuntimeTable {
    pub schema: Schema,
    pub indexes: Vec<IndexDefinition>,
}

/// Every index names its table, up to ASCII case.
pub open spec fn owns_indexes(table_name: Seq<char>, indexes: Seq<IndexDefinition>) -> bool {
    forall|i: int|
        0 <= i < indexes.len() ==> same_ignoring_ascii_case(
            (#[trigger] indexes[i]).table_name@,
            table_name,
        )
}

impl CatalogRuntimeTable {
    /// Puts a table and its indexes together.
    pub fn new(schema: Schema, indexes: Vec<IndexDefinition>) -> (r: Result<Self, Error>)
        ensures
            refusal(r) == (if owns_indexes(schema.table_name@, indexes@) {
                None
            } else {
                Some(ErrorView::Internal("catalog runtime index belongs to another table"@))
            }),
            r matches Ok(t) ==> t.schema == schema && t.indexes == indexes,
    {
        let mut i: usize = 0;
        while i < indexes.len()
            invariant
                0 <= i <= indexes@.len(),
                forall|k: int|
                    0 <= k < i ==> same_ignoring_ascii_case(
                        (#[trigger] indexes@[k]).table_name@,
                        schema.table_name@,
                    ),
            decreases indexes@.len() - i,
        {
            if !eq_ignore_ascii_case(indexes[i].table_name.as_str(), schema.table_name.as_str()) {
                assert(!owns_indexes(schema.table_name@, indexes@));
                return Err(Error::internal("catalog runtime index belongs to another table"));
            }
            i = i + 1;
        }
        Ok(CatalogRuntimeTable { schema, indexes })
    }
}

proof fn lemma_name_transitive(a: Seq<char>, b: Seq<char>, c: Seq<char>)
    requires
        !text_before(b, a),
        !text_before(c, b),
    ensures
        !text_before(c, a),
{
    lemma_text_before_total(a, b);
    lemma_text_before_total(b, c);
    lemma_text_before_total(a, c);
    if text_before(c, a) {
        if a != b {
            lemma_text_before_transitive(c, a, b);
        }
    }
}

impl SortKey for CatalogRuntimeTable {
    open spec fn leq(self, other: Self) -> bool {
        !text_before(other.schema.table_name_lower@, self.schema.table_name_lower@)
    }

    proof fn lemma_total(a: Self, b: Self) {
        lemma_text_before_total(a.schema.table_name_lower@, b.schema.table_name_lower@);
    }

    proof fn lemma_transitive(a: Self, b: Self, c: Self) {
        lemma_name_transitive(
            a.schema.table_name_lower@,
            b.schema.table_name_lower@,
            c.schema.table_name_lower@,
        );
    }

    fn is_leq(&self, other: &Self) -> (r: bool) {
        !is_text_before(
            other.schema.table_name_lower.as_str(),
            self.schema.table_name_lower.as_str(),
        )
    }
}

impl SortKey for ViewDefinition {
    open spec fn leq(self, other: Self) -> bool {
        !text_before(other.name@, self.name@)
    }

    proof fn lemma_total(a: Self, b: Self) {
        lemma_text_before_total(a.name@, b.name@);
    }

    proof fn lemma_transitive(a: Self, b: Self, c: Self) {
        lemma_name_transitive(a.name@, b.name@, c.name@);
    }

    fn is_leq(&self, other: &Self) -> (r: bool) {
        !is_text_before(other.name.as_str(), self.name.as_str())
    }
}

/// No two tables share a normalized name.
pub open spec fn distinct_tables(tables: Seq<CatalogRuntimeTable>) -> bool {
    forall|i: int, j: int|
        0 <= i < j < tables.len() ==> (#[trigger] tables[i]).schema.table_name_lower@ != (
        #[trigger] tables[j]).schema.table_name_lower@
}

pub open spec fn distinct_views(views: Seq<ViewDefinition>) -> bool {
    forall|i: int, j: int|
        0 <= i < j < views.len() ==> (#[trigger] views[i]).name@ != (#[trigger] views[j]).name@
}

/// Reordering keeps names distinct.
proof fn lemma_distinct_tables(a: Seq<CatalogRuntimeTable>, b: Seq<CatalogRuntimeTable>)
    requires
        is_permutation(a, b),
        distinct_tables(a),
    ensures
        distinct_tables(b),
{
    lemma_permutation(a, b);
    assert(a.no_duplicates());
    assert(b.no_duplicates());
    assert forall|i: int, j: int| 0 <= i < j < b.len() implies (
    #[trigger] b[i]).schema.table_name_lower@ != (#[trigger] b[j]).schema.table_name_lower@ by {
        assert(b.contains(b[i]) && b.contains(b[j]));
        assert(a.contains(b[i]) && a.contains(b[j]));
        let x = choose|x: int| 0 <= x < a.len() && a[x] == b[i];
        let y = choose|y: int| 0 <= y < a.len() && a[y] == b[j];
        assert(b[i] != b[j]);
        if x < y {
            assert(a[x].schema.table_name_lower@ != a[y].schema.table_name_lower@);
        } else {
            assert(a[y].schema.table_name_lower@ != a[x].schema.table_name_lower@);
        }
    }
}

proof fn lemma_distinct_views(a: Seq<ViewDefinition>, b: Seq<ViewDefinition>)
    requires
        is_permutation(a, b),
        distinct_views(a),
    ensures
        distinct_views(b),
{
    lemma_permutation(a, b);
    assert(a.no_duplicates());
    assert(b.no_duplicates());
    assert forall|i: int, j: int| 0 <= i < j < b.len() implies (#[trigger] b[i]).name@ != (
    #[trigger] b[j]).name@ by {
        assert(b.contains(b[i]) && b.contains(b[j]));
        assert(a.contains(b[i]) && a.contains(b[j]));
        let x = choose|x: int| 0 <= x < a.len() && a[x] == b[i];
        let y = choose|y: int| 0 <= y < a.len() && a[y] == b[j];
        assert(b[i] != b[j]);
        if x < y {
            assert(a[x].name@ != a[y].name@);
        } else {
            assert(a[y].name@ != a[x].name@);
        }
    }
}

proof fn lemma_permutation_symmetric<T>(a: Seq<T>, b: Seq<T>)
    requires
        is_permutation(a, b),
    ensures
        is_permutation(b, a),
{
}

/// Whether sorted tables have neighbours of one name.
fn repeats_table(tables: &Vec<CatalogRuntimeTable>) -> (r: bool)
    requires
        is_sorted(tables@),
    ensures
        r == !distinct_tables(tables@),
{
    let mut i: usize = 1;
    while i < tables.len()
        invariant
            1 <= i,
            i <= tables@.len() || tables@.len() == 0,
            is_sorted(tables@),
            forall|a: int, b: int|
                0 <= a < b < i && b < tables@.len() ==> text_before(
                    (#[trigger] tables@[a]).schema.table_name_lower@,
                    (#[trigger] tables@[b]).schema.table_name_lower@,
                ),
        decreases tables@.len() - i,
    {
        if same_text(
            tables[i - 1].schema.table_name_lower.as_str(),
            tables[i].schema.table_name_lower.as_str(),
        ) {
            assert(tables@[i - 1].schema.table_name_lower@
                == tables@[i as int].schema.table_name_lower@);
            return true;
        }
        proof {
            let x = tables@[i - 1].schema.table_name_lower@;
            let y = tables@[i as int].schema.table_name_lower@;
            assert(tables@[i - 1].leq(tables@[i as int]));
            lemma_text_before_total(x, y);
            assert forall|a: int, b: int| 0 <= a < b < i + 1 && b < tables@.len() implies text_before(
                (#[trigger] tables@[a]).schema.table_name_lower@,
                (#[trigger] tables@[b]).schema.table_name_lower@,
            ) by {
                if b == i && a < i - 1 {
                    lemma_text_before_transitive(
                        tables@[a].schema.table_name_lower@,
                        x,
                        y,
                    );
                }
            }
        }
        i = i + 1;
    }
    assert forall|a: int, b: int| 0 <= a < b < tables@.len() implies (
    #[trigger] tables@[a]).schema.table_name_lower@ != (
    #[trigger] tables@[b]).schema.table_name_lower@ by {
        lemma_text_before_total(
            tables@[a].schema.table_name_lower@,
            tables@[b].schema.table_name_lower@,
        );
    }
    false
}

fn repeats_view(views: &Vec<ViewDefinition>) -> (r: bool)
    requires
        is_sorted(views@),
    ensures
        r == !distinct_views(views@),
{
    let mut i: usize = 1;
    while i < views.len()
        invariant
            1 <= i,
            i <= views@.len() || views@.len() == 0,
            is_sorted(views@),
            forall|a: int, b: int|
                0 <= a < b < i && b < views@.len() ==> text_before(
                    (#[trigger] views@[a]).name@,
                    (#[trigger] views@[b]).name@,
                ),
        decreases views@.len() - i,
    {
        if same_text(views[i - 1].name.as_str(), views[i].name.as_str()) {
            assert(views@[i - 1].name@ == views@[i as int].name@);
            return true;
        }
        proof {
            let x = views@[i - 1].name@;
            let y = views@[i as int].name@;
            assert(views@[i - 1].leq(views@[i as int]));
            lemma_text_before_total(x, y);
            assert forall|a: int, b: int| 0 <= a < b < i + 1 && b < views@.len() implies text_before(
                (#[trigger] views@[a]).name@,
                (#[trigger] views@[b]).name@,
            ) by {
                if b == i && a < i - 1 {
                    lemma_text_before_transitive(views@[a].name@, x, y);
                }
            }
        }
        i = i + 1;
    }
    assert forall|a: int, b: int| 0 <= a < b < views@.len() implies (#[trigger] views@[a]).name@
        != (#[trigger] views@[b]).name@ by {
        lemma_text_before_total(views@[a].name@, views@[b].name@);
    }
    false
}

/// Everything that a catalog generation binds to.
#[derive(Debug)]
pub struct CatalogRuntime {
    tables: Vec<CatalogRuntimeTable>,
    views: Vec<ViewDefinition>,
}

impl CatalogRuntime {
    pub closed spec fn bound_tables(self) -> Seq<CatalogRuntimeTable> {
        self.tables@
    }

    pub closed spec fn bound_views(self) -> Seq<ViewDefinition> {
        self.views@
    }

    /// In the order of their names, none of which occurs twice.
    pub open spec fn wf(self) -> bool {
        &&& is_sorted(self.bound_tables())
        &&& distinct_tables(self.bound_tables())
        &&& is_sorted(self.bound_views())
        &&& distinct_views(self.bound_views())
    }

    /// Orders tables and views by name.
    pub fn new(tables: Vec<CatalogRuntimeTable>, views: Vec<ViewDefinition>) -> (r: Result<
        Self,
        Error,
    >)
        ensures
            refusal(r) == (if distinct_tables(tables@) && distinct_views(views@) {
                None
            } else {
                Some(
                    ErrorView::Internal("catalog runtime contains duplicate table or view names"@),
                )
            }),
            r matches Ok(c) ==> c.wf() && is_permutation(c.bound_tables(), tables@)
                && is_permutation(c.bound_views(), views@),
    {
        let ghost given_tables = tables@;
        let ghost given_views = views@;
        let tables: Vec<CatalogRuntimeTable> = sorted(tables);
        let views: Vec<ViewDefinition> = sorted(views);
        proof {
            lemma_permutation_symmetric(tables@, given_tables);
            lemma_permutation_symmetric(views@, given_views);
            if distinct_tables(given_tables) {
                lemma_distinct_tables(given_tables, tables@);
            }
            if distinct_tables(tables@) {
                lemma_distinct_tables(tables@, given_tables);
            }
            if distinct_views(given_views) {
                lemma_distinct_views(given_views, views@);
            }
            if distinct_views(views@) {
                lemma_distinct_views(views@, given_views);
            }
        }
        if repeats_table(&tables) || repeats_view(&views) {
            return Err(Error::internal("catalog runtime contains duplicate table or view names"));
        }
        Ok(CatalogRuntime { tables, views })
    }

    pub fn into_parts(self) -> (r: (Vec<CatalogRuntimeTable>, Vec<ViewDefinition>))
        ensures
            r.0@ == self.bound_tables(),
            r.1@ == self.bound_views(),
    {
        (self.tables, self.views)
    }
}

/// What an engine without a binder makes of a catalog: only an empty one can
/// be opened.
pub fn missing_catalog_runtime_binder(has_tables: bool, has_views: bool) -> (r: Result<
    CatalogRuntime,
    Error,
>)
    ensures
        refusal(r) == (if has_tables || has_views {
            Some(
                ErrorView::NotSupported(
                    "persistent catalog recovery requires an executor catalog binder"@,
                ),
            )
        } else {
            None
        }),
        r matches Ok(c) ==> c.wf() && c.bound_tables().len() == 0 && c.bound_views().len() == 0,
{
    if has_tables || has_views {
        return Err(
            Error::NotSupported(
                String::from_str("persistent catalog recovery requires an executor catalog binder"),
            ),
        );
    }
    match CatalogRuntime::new(Vec::new(), Vec::new()) {
        Ok(c) => {
            proof {
                lemma_permutation(c.bound_tables(), Seq::<CatalogRuntimeTable>::empty());
                lemma_permutation(c.bound_views(), Seq::<ViewDefinition>::empty());
            }
            Ok(c)
        },
        Err(e) => Err(e),
    }
}

} // verus!
