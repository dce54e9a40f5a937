//! What looking things up in the engine is for.
use super::lookups::cold_only;
use super::lookups::counted;
use super::lookups::index_label;
use super::lookups::listed_indexes;
use super::lookups::store_refusal;
use super::lookups::vacuum_refusal;
use super::lookups::RowPresence;
use crate::error::ErrorView;
use crate::schema::is_derived_pk;
use crate::schema::lemma_filter_push;
use crate::schema::IndexInfo;
use crate::schema::SchemaView;
use crate::text::lowercase_text;
use vstd::prelude::*;

verus! {

/// A request counts each row that cold segments have and hot storage does not,
/// once, and no other.
pub proof fn law_cold_rows_are_counted_once(rows: Seq<RowPresence>, n: int)
    requires
        0 <= n <= rows.len(),
    ensures
        cold_only(rows, n) == rows.take(n).filter(
            |r: RowPresence| r.cold && !r.committed_hot,
        ).len(),
    decreases n,
{
    let keep = |r: RowPresence| r.cold && !r.committed_hot;
    if n > 0 {
        law_cold_rows_are_counted_once(rows, n - 1);
        lemma_filter_push(rows, n - 1, keep);
    } else {
        assert(rows.take(0).filter(keep).len() == 0) by {
            reveal(Seq::filter);
        }
    }
}

proof fn lemma_listed(schema: SchemaView, indexes: Seq<IndexInfo>, n: int, name: Seq<char>)
    requires
        0 <= n <= indexes.len(),
    ensures
        listed_indexes(schema, indexes, n).dom().contains(name) <==> exists|k: int|
            0 <= k < n && is_shown(schema, #[trigger] indexes[k], name),
    decreases n,
{
    if n > 0 {
        lemma_listed(schema, indexes, n - 1, name);
        let last = indexes[n - 1];
        if is_shown(schema, last, name) {
            assert(is_shown(schema, indexes[n - 1], name));
        }
        if listed_indexes(schema, indexes, n - 1).dom().contains(name) {
            let k = choose|k: int| 0 <= k < n - 1 && is_shown(schema, #[trigger] indexes[k], name);
            assert(is_shown(schema, indexes[k], name));
        }
    }
}

proof fn lemma_label(schema: SchemaView, indexes: Seq<IndexInfo>, n: int, name: Seq<char>, k: int)
    requires
        0 <= k < n <= indexes.len(),
        is_shown(schema, indexes[k], name),
        forall|m: int| k < m < n ==> (#[trigger] indexes[m]).name@ != name,
    ensures
        listed_indexes(schema, indexes, n)[name] == index_label(indexes[k].index_type),
    decreases n,
{
    if k < n - 1 {
        assert(indexes[n - 1].name@ != name);
        lemma_label(schema, indexes, n - 1, name, k);
        lemma_listed(schema, indexes, n - 1, name);
    }
}

/// An index of this name that is not the private one of a primary key.
pub open spec fn is_shown(schema: SchemaView, index: IndexInfo, name: Seq<char>) -> bool {
    index.name@ == name && !is_derived_pk(schema, index)
}

/// A listing shows every index of a table but the private one of its primary
/// key, and no other, each with its kind.
pub proof fn law_listing_shows_every_index(
    schema: SchemaView,
    indexes: Seq<IndexInfo>,
    name: Seq<char>,
    k: int,
)
    ensures
        ({
            let listed = listed_indexes(schema, indexes, indexes.len() as int);
            &&& listed.dom().contains(name) <==> exists|i: int|
                0 <= i < indexes.len() && is_shown(schema, #[trigger] indexes[i], name)
            &&& 0 <= k < indexes.len() && is_shown(schema, indexes[k], name) && (forall|m: int| k < m < indexes.len() ==> (#[trigger] indexes[m]).name@ != name)
                ==> listed[name] == match indexes[k].index_type {
                crate::schema::IndexType::BTree => "BTree"@,
                crate::schema::IndexType::Hash => "Hash"@,
                crate::schema::IndexType::Bitmap => "Bitmap"@,
                crate::schema::IndexType::Hnsw => "HNSW"@,
                crate::schema::IndexType::MultiColumn => "MultiColumn"@,
                crate::schema::IndexType::PrimaryKey => "PrimaryKey"@,
            }
        }),
{
    let n = indexes.len() as int;
    lemma_listed(schema, indexes, n, name);
    if 0 <= k < n && is_shown(schema, indexes[k], name) && (forall|m: int|
        k < m < n ==> (#[trigger] indexes[m]).name@ != name) {
        lemma_label(schema, indexes, n, name, k);
    }
}

proof fn lemma_counted(counts: Seq<i32>, n: int)
    requires
        0 <= n <= counts.len(),
    ensures
        counted(counts, n) == counts.take(n).fold_left(0int, |sum: int, c: i32| sum + c),
    decreases n,
{
    let add = |sum: int, c: i32| sum + c;
    let part = counts.take(n);
    if n > 0 {
        lemma_counted(counts, n - 1);
        assert(part.drop_last() =~= counts.take(n - 1));
        assert(part.last() == counts[n - 1]);
    }
}

/// A vacuum reports the sum over all tables that it covered.
pub proof fn law_vacuum_counts_every_table(counts: Seq<i32>)
    ensures
        counted(counts, counts.len() as int) == counts.fold_left(
            0int,
            |sum: int, c: i32| sum + c,
        ),
{
    lemma_counted(counts, counts.len() as int);
    assert(counts.take(counts.len() as int) =~= counts);
}

/// A table's store is found exactly where looking is allowed and the table is
/// there, in whatever case its name is written; a vacuum goes by the stored
/// name alone.
pub proof fn law_tables_are_found_by_name<T>(
    allowed: bool,
    stores: Map<Seq<char>, T>,
    table_name: &str,
)
    ensures
        store_refusal(allowed, stores.dom(), table_name@) is None <==> allowed
            && stores.dom().contains(lowercase_text(table_name@)),
        !allowed ==> store_refusal(allowed, stores.dom(), table_name@) == Some(
            ErrorView::EngineNotOpen,
        ),
        vacuum_refusal(allowed, stores, Some(table_name)) is None <==> allowed
            && stores.dom().contains(table_name@),
        vacuum_refusal(allowed, stores, None) is None <==> allowed,
{
}

} // verus!
