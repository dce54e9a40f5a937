//! Lookups across hot rows and cold segments, cleaning and truncation.
use crate::error::refusal;
use crate::error::Error;
use crate::error::ErrorView;
use crate::fx::row_set;
use crate::fx::row_set_contains;
use crate::fx::row_set_insert;
use crate::names::NameMap;
use crate::schema::is_derived_pk;
use crate::schema::is_schema_derived_pk_index;
use crate::schema::lemma_filter_push;
use crate::schema::IndexInfo;
use crate::schema::IndexType;
use crate::schema::Schema;
use crate::schema::SchemaView;
use crate::text::lowercase_text;
use crate::text::to_lowercase_cow;
use crate::txn::order::all_distinct;
use crate::txn::order::is_name_order;
use crate::txn::order::order_by_name;
use crate::txn::order::string_views;
use rustc_hash::FxHashSet;
use std::borrow::Cow;
use vstd::prelude::*;
use vstd::string::StringExecFns;

verus! {

/// Refuses work on an engine that is not open.
pub fn require_open(open: bool) -> (r: Result<(), Error>)
    ensures
        refusal(r) == (if open {
            None
        } else {
            Some(ErrorView::EngineNotOpen)
        }),
{
    if !open {
        return Err(Error::EngineNotOpen);
    }
    Ok(())
}

/// Decides on a transaction that was asked for. `txn_id` is absent where the
/// registry takes no transactions.
pub fn begin_transaction_with_level(open: bool, txn_id: Option<i64>) -> (r: Result<i64, Error>)
    ensures
        refusal(r) == (if !open {
            Some(ErrorView::EngineNotOpen)
        } else if txn_id is None {
            Some(
                ErrorView::Internal("transaction registry is not accepting new transactions"@),
            )
        } else {
            None
        }),
        r matches Ok(id) ==> txn_id == Some(id),
{
    if !open {
        return Err(Error::EngineNotOpen);
    }
    match txn_id {
        Some(id) => Ok(id),
        None => Err(Error::internal("transaction registry is not accepting new transactions")),
    }
}

/// Whether a table is published.
pub fn table_exists<T>(open: bool, schemas: &NameMap<T>, table_name: &str) -> (r: Result<
    bool,
    Error,
>)
    requires
        schemas.wf(),
    ensures
        refusal(r) == (if open {
            None
        } else {
            Some(ErrorView::EngineNotOpen)
        }),
        r matches Ok(found) ==> found == schemas@.dom().contains(lowercase_text(table_name@)),
{
    if !open {
        return Err(Error::EngineNotOpen);
    }
    let name: String = match to_lowercase_cow(table_name) {
        Cow::Borrowed(name) => String::from_str(name),
        Cow::Owned(name) => name,
    };
    Ok(schemas.contains_key(name.as_str()))
}

/// Why the store of a table cannot be had.
pub open spec fn store_refusal(
    allowed: bool,
    stores: Set<Seq<char>>,
    table_name: Seq<char>,
) -> Option<ErrorView> {
    if !allowed {
        Some(ErrorView::EngineNotOpen)
    } else if !stores.contains(lowercase_text(table_name)) {
        Some(ErrorView::TableNotFound(lowercase_text(table_name)))
    } else {
        None
    }
}

/// The store of a published table. Before the engine is open only recovery
/// may look.
pub fn get_version_store<'a, T>(
    open: bool,
    recovering: bool,
    stores: &'a NameMap<T>,
    table_name: &str,
) -> (r: Result<&'a T, Error>)
    requires
        stores.wf(),
    ensures
        refusal(r) == store_refusal(open || recovering, stores@.dom(), table_name@),
        r matches Ok(store) ==> *store == stores@[lowercase_text(table_name@)],
{
    if !open && !recovering {
        return Err(Error::EngineNotOpen);
    }
    let name: String = match to_lowercase_cow(table_name) {
        Cow::Borrowed(name) => String::from_str(name),
        Cow::Owned(name) => name,
    };
    match stores.get(name.as_str()) {
        Some(store) => Ok(store),
        None => Err(Error::TableNotFound(name)),
    }
}

/// An index that a table does not have.
pub fn index_missing(table_name: &str, index_name: &str) -> (e: Error)
    ensures
        e@ == ErrorView::IndexNotFound(table_name@ + "."@ + index_name@),
{
    Error::IndexNotFound(String::from_str(table_name).concat(".").concat(index_name))
}

pub open spec fn index_label(index_type: IndexType) -> Seq<char> {
    match index_type {
        IndexType::BTree => "BTree"@,
        IndexType::Hash => "Hash"@,
        IndexType::Bitmap => "Bitmap"@,
        IndexType::Hnsw => "HNSW"@,
        IndexType::MultiColumn => "MultiColumn"@,
        IndexType::PrimaryKey => "PrimaryKey"@,
    }
}

fn label_of(index_type: IndexType) -> (r: &'static str)
    ensures
        r@ == index_label(index_type),
{
    match index_type {
        IndexType::BTree => "BTree",
        IndexType::Hash => "Hash",
        IndexType::Bitmap => "Bitmap",
        IndexType::Hnsw => "HNSW",
        IndexType::MultiColumn => "MultiColumn",
        IndexType::PrimaryKey => "PrimaryKey",
    }
}

/// Indexes below `n` by name, without the private owner of the primary key.
pub open spec fn listed_indexes(schema: SchemaView, indexes: Seq<IndexInfo>, n: int) -> Map<
    Seq<char>,
    Seq<char>,
>
    decreases n,
{
    if n <= 0 {
        Map::empty()
    } else if is_derived_pk(schema, indexes[n - 1]) {
        listed_indexes(schema, indexes, n - 1)
    } else {
        listed_indexes(schema, indexes, n - 1).insert(
            indexes[n - 1].name@,
            index_label(indexes[n - 1].index_type),
        )
    }
}

/// Labels that a map binds, as texts.
pub open spec fn label_views(labels: Map<Seq<char>, String>) -> Map<Seq<char>, Seq<char>> {
    labels.map_values(|t: String| t@)
}

/// The indexes of a table with their kinds.
pub fn list_table_indexes(schema: &Schema, indexes: &Vec<IndexInfo>) -> (r: NameMap<String>)
    ensures
        r.wf(),
        label_views(r@) == listed_indexes(schema@, indexes@, indexes@.len() as int),
{
    let mut out: NameMap<String> = NameMap::new();
    assert(label_views(out@) =~= Map::<Seq<char>, Seq<char>>::empty());
    let mut i: usize = 0;
    while i < indexes.len()
        invariant
            0 <= i <= indexes@.len(),
            out.wf(),
            label_views(out@) == listed_indexes(schema@, indexes@, i as int),
        decreases indexes@.len() - i,
    {
        if !is_schema_derived_pk_index(schema, &indexes[i]) {
            let ghost before = out@;
            let label: String = String::from_str(label_of(indexes[i].index_type));
            let ghost shown = label;
            out.insert(indexes[i].name.clone(), label);
            assert(label_views(out@) =~= label_views(before).insert(
                indexes@[i as int].name@,
                shown@,
            ));
        }
        i = i + 1;
    }
    out
}

/// Rows that are looked up in cold segments: those that hot storage did not
/// have.
pub open spec fn missing_rows(row_ids: Seq<i64>, found: Seq<i64>) -> Seq<i64> {
    row_ids.filter(|id: i64| !found.contains(id))
}

/// Which rows of a request are still to be looked up in cold segments.
pub fn fetch_rows_by_ids(row_ids: &Vec<i64>, found: &Vec<i64>, has_segments: bool) -> (r: Vec<i64>)
    ensures
        r@ == (if found@.len() < row_ids@.len() && has_segments {
            missing_rows(row_ids@, found@)
        } else {
            Seq::<i64>::empty()
        }),
{
    let mut out: Vec<i64> = Vec::new();
    if found.len() >= row_ids.len() || !has_segments {
        return out;
    }
    let mut seen: FxHashSet<i64> = row_set();
    let mut f: usize = 0;
    while f < found.len()
        invariant
            0 <= f <= found@.len(),
            forall|x: i64| #[trigger]
                seen@.contains(x) <==> exists|k: int| 0 <= k < f && #[trigger] found@[k] == x,
        decreases found@.len() - f,
    {
        let ghost before = seen@;
        row_set_insert(&mut seen, found[f]);
        assert forall|x: i64| #[trigger]
            seen@.contains(x) <==> exists|k: int| 0 <= k < f + 1 && #[trigger] found@[k] == x by {
            if before.contains(x) {
                let k = choose|k: int| 0 <= k < f && #[trigger] found@[k] == x;
                assert(found@[k] == x);
            }
            if x == found@[f as int] {
                assert(found@[f as int] == x);
            }
        }
        f = f + 1;
    }
    assert forall|x: i64| seen@.contains(x) <==> found@.contains(x) by {
        if found@.contains(x) {
            let k = choose|k: int| 0 <= k < found@.len() && found@[k] == x;
            assert(found@[k] == x);
        }
    }
    let ghost keep = |id: i64| !found@.contains(id);
    let mut i: usize = 0;
    assert(row_ids@.take(0).filter(keep) =~= Seq::<i64>::empty()) by {
        reveal(Seq::filter);
    }
    while i < row_ids.len()
        invariant
            0 <= i <= row_ids@.len(),
            keep == (|id: i64| !found@.contains(id)),
            forall|x: i64| seen@.contains(x) <==> found@.contains(x),
            out@ == row_ids@.take(i as int).filter(keep),
        decreases row_ids@.len() - i,
    {
        proof {
            lemma_filter_push(row_ids@, i as int, keep);
        }
        if !row_set_contains(&seen, row_ids[i]) {
            out.push(row_ids[i]);
        }
        i = i + 1;
    }
    assert(row_ids@.take(i as int) =~= row_ids@);
    out
}

/// Where a requested row is.
#[derive(Debug, Clone, Copy, PartialEq, Eq, Structural)]
pub struct RowPresence {
    pub committed_hot: bool,
    pub cold: bool,
}

pub open spec fn cold_only(rows: Seq<RowPresence>, n: int) -> nat
    decreases n,
{
    if n <= 0 {
        0
    } else {
        cold_only(rows, n - 1) + if !rows[n - 1].committed_hot && rows[n - 1].cold {
            1nat
        } else {
            0nat
        }
    }
}

/// Counts the visible rows of a request: the hot ones, and those that only
/// cold segments have.
pub fn count_visible_rows(hot_count: usize, rows: &Vec<RowPresence>, has_segments: bool) -> (
    r: usize)
    requires
        rows@.len() <= usize::MAX / 2,
    ensures
        r == (if hot_count < rows@.len() && has_segments {
            hot_count + cold_only(rows@, rows@.len() as int)
        } else {
            hot_count as int
        }),
{
    if hot_count >= rows.len() || !has_segments {
        return hot_count;
    }
    let mut count: usize = hot_count;
    let mut i: usize = 0;
    while i < rows.len()
        invariant
            0 <= i <= rows@.len(),
            rows@.len() <= usize::MAX / 2,
            hot_count < rows@.len(),
            count == hot_count + cold_only(rows@, i as int),
            cold_only(rows@, i as int) <= i,
        decreases rows@.len() - i,
    {
        if !rows[i].committed_hot && rows[i].cold {
            count = count + 1;
        }
        i = i + 1;
    }
    count
}

/// Sum of the first `n` counts.
pub open spec fn counted(counts: Seq<i32>, n: int) -> int
    decreases n,
{
    if n <= 0 {
        0
    } else {
        counted(counts, n - 1) + counts[n - 1]
    }
}

/// Every partial sum is a 32-bit number.
pub open spec fn sums_fit(counts: Seq<i32>) -> bool {
    forall|n: int|
        0 <= n <= counts.len() ==> i32::MIN <= #[trigger] counted(counts, n) <= i32::MAX
}

/// How much was cleaned over all tables; nothing where the engine is not
/// open.
pub fn total_cleaned(open: bool, counts: &Vec<i32>) -> (r: i32)
    requires
        sums_fit(counts@),
    ensures
        r == (if open {
            counted(counts@, counts@.len() as int)
        } else {
            0
        }),
{
    if !open {
        return 0;
    }
    let mut total: i32 = 0;
    let mut i: usize = 0;
    while i < counts.len()
        invariant
            0 <= i <= counts@.len(),
            sums_fit(counts@),
            total == counted(counts@, i as int),
        decreases counts@.len() - i,
    {
        assert(i32::MIN <= counted(counts@, i + 1) <= i32::MAX);
        total = total + counts[i];
        i = i + 1;
    }
    total
}

/// What one table would give up to a vacuum.
#[derive(Debug, Clone, Copy, PartialEq, Eq, Structural)]
pub struct CleanedTable {
    pub rows: i32,
    pub versions: i32,
}

/// What a vacuum cleaned.
#[derive(Debug, Clone, Copy, PartialEq, Eq, Structural)]
pub struct Vacuumed {
    pub rows: i32,
    pub versions: i32,
    pub transactions: i32,
}

pub open spec fn rows_of(cleaned: Seq<CleanedTable>) -> Seq<i32> {
    cleaned.map_values(|c: CleanedTable| c.rows)
}

pub open spec fn versions_of(cleaned: Seq<CleanedTable>) -> Seq<i32> {
    cleaned.map_values(|c: CleanedTable| c.versions)
}

/// Why a vacuum does nothing.
pub open spec fn vacuum_refusal<T>(
    open: bool,
    stores: Map<Seq<char>, T>,
    table_name: Option<&str>,
) -> Option<ErrorView> {
    if !open {
        Some(ErrorView::EngineNotOpen)
    } else {
        match table_name {
            Some(name) => if stores.dom().contains(name@) {
                None
            } else {
                Some(ErrorView::TableNotFound(name@))
            },
            None => None,
        }
    }
}

/// Which tables a vacuum covers: one by its stored name, or all.
pub fn vacuum_scope<T>(open: bool, stores: &NameMap<T>, table_name: Option<&str>) -> (r: Result<
    bool,
    Error,
>)
    requires
        stores.wf(),
    ensures
        refusal(r) == vacuum_refusal(open, stores@, table_name),
        r matches Ok(all) ==> all == (table_name is None),
{
    if !open {
        return Err(Error::EngineNotOpen);
    }
    match table_name {
        Some(name) => {
            if !stores.contains_key(name) {
                return Err(Error::TableNotFound(String::from_str(name)));
            }
            Ok(false)
        },
        None => Ok(true),
    }
}

/// How many tables a vacuum covers.
pub open spec fn covered_tables<T>(stores: Map<Seq<char>, T>, table_name: Option<&str>) -> nat {
    match table_name {
        Some(_) => 1,
        None => stores.dom().len(),
    }
}

/// Rows and versions over the tables that a vacuum covered, and the
/// transactions that went before them. `cleaned` has one entry for each table
/// of the scope.
pub fn vacuum<T>(
    open: bool,
    stores: &NameMap<T>,
    table_name: Option<&str>,
    transactions: i32,
    cleaned: &Vec<CleanedTable>,
) -> (r: Result<Vacuumed, Error>)
    requires
        stores.wf(),
        vacuum_refusal(open, stores@, table_name) is None ==> cleaned@.len() == covered_tables(
            stores@,
            table_name,
        ),
        sums_fit(rows_of(cleaned@)),
        sums_fit(versions_of(cleaned@)),
    ensures
        refusal(r) == vacuum_refusal(open, stores@, table_name),
        r matches Ok(v) ==> {
            &&& v.rows == counted(rows_of(cleaned@), cleaned@.len() as int)
            &&& v.versions == counted(versions_of(cleaned@), cleaned@.len() as int)
            &&& v.transactions == transactions
        },
{
    match vacuum_scope(open, stores, table_name) {
        Err(e) => {
            return Err(e);
        },
        Ok(_) => {},
    }
    let mut rows: Vec<i32> = Vec::new();
    let mut versions: Vec<i32> = Vec::new();
    let mut i: usize = 0;
    while i < cleaned.len()
        invariant
            0 <= i <= cleaned@.len(),
            rows@ == rows_of(cleaned@.take(i as int)),
            versions@ == versions_of(cleaned@.take(i as int)),
        decreases cleaned@.len() - i,
    {
        rows.push(cleaned[i].rows);
        versions.push(cleaned[i].versions);
        i = i + 1;
        assert(rows@ =~= rows_of(cleaned@.take(i as int)));
        assert(versions@ =~= versions_of(cleaned@.take(i as int)));
    }
    assert(cleaned@.take(i as int) =~= cleaned@);
    Ok(
        Vacuumed {
            rows: total_cleaned(true, &rows),
            versions: total_cleaned(true, &versions),
            transactions,
        },
    )
}

/// A volume as statistics show it.
#[derive(Debug, Clone, Copy, PartialEq, Eq)]
pub struct VolumeStat {
    pub segment_id: u64,
    pub tier: &'static str,
    pub row_count: usize,
    pub resident_bytes: usize,
    pub metadata_bytes: usize,
    pub row_id_bytes: usize,
    pub exact_index_bytes: usize,
    pub ordered_index_bytes: usize,
    pub descriptor_bytes: usize,
    pub column_payload_bytes: usize,
    pub idle_cycles: u64,
}

/// The volumes of one table.
#[derive(Debug)]
pub struct TableVolumes {
    pub name: String,
    pub tombstones: usize,
    pub volumes: Vec<VolumeStat>,
}

/// A line of the statistics: the table's position, its volume and tombstones.
#[derive(Debug, Clone, Copy, PartialEq, Eq)]
pub struct VolumeLine {
    pub table: usize,
    pub volume: VolumeStat,
    pub tombstones: usize,
}

/// Lines of one table below `n`.
pub open spec fn table_lines(tables: Seq<TableVolumes>, t: int, n: int) -> Seq<VolumeLine>
    decreases n,
{
    if n <= 0 {
        Seq::empty()
    } else {
        table_lines(tables, t, n - 1).push(
            VolumeLine {
                table: t as usize,
                volume: tables[t].volumes@[n - 1],
                tombstones: tables[t].tombstones,
            },
        )
    }
}

/// Lines of the first `n` tables of an order.
pub open spec fn ordered_lines(tables: Seq<TableVolumes>, order: Seq<usize>, n: int) -> Seq<
    VolumeLine,
>
    decreases n,
{
    if n <= 0 {
        Seq::empty()
    } else {
        let t = order[n - 1] as int;
        ordered_lines(tables, order, n - 1) + table_lines(
            tables,
            t,
            tables[t].volumes@.len() as int,
        )
    }
}

pub open spec fn volume_names(tables: Seq<TableVolumes>) -> Seq<Seq<char>> {
    tables.map_values(|t: TableVolumes| t.name@)
}

/// Whether lines are those of all tables, by name.
pub open spec fn lists_volumes(
    tables: Seq<TableVolumes>,
    order: Seq<usize>,
    lines: Seq<VolumeLine>,
) -> bool {
    is_name_order(volume_names(tables), order) && order.len() == tables.len() && lines
        == ordered_lines(tables, order, order.len() as int)
}

/// Statistics of every volume, tables in the order of their names.
pub fn volume_stats(tables: &Vec<TableVolumes>) -> (lines: Vec<VolumeLine>)
    requires
        all_distinct(volume_names(tables@)),
    ensures
        exists|order: Seq<usize>| #[trigger] lists_volumes(tables@, order, lines@),
{
    let mut names: Vec<String> = Vec::new();
    let mut i: usize = 0;
    while i < tables.len()
        invariant
            0 <= i <= tables@.len(),
            names@.len() == i,
            forall|k: int| 0 <= k < i ==> (#[trigger] names@[k])@ == tables@[k].name@,
        decreases tables@.len() - i,
    {
        names.push(tables[i].name.clone());
        i = i + 1;
    }
    assert(string_views(names@) =~= volume_names(tables@));
    let order: Vec<usize> = order_by_name(&names);
    let mut lines: Vec<VolumeLine> = Vec::new();
    let mut a: usize = 0;
    while a < order.len()
        invariant
            0 <= a <= order@.len(),
            is_name_order(volume_names(tables@), order@),
            lines@ == ordered_lines(tables@, order@, a as int),
        decreases order@.len() - a,
    {
        let t: usize = order[a];
        assert(t < volume_names(tables@).len());
        let ghost before = lines@;
        let mut v: usize = 0;
        assert(lines@ =~= before + table_lines(tables@, t as int, 0));
        while v < tables[t].volumes.len()
            invariant
                t < tables@.len(),
                0 <= v <= tables@[t as int].volumes@.len(),
                lines@ == before + table_lines(tables@, t as int, v as int),
            decreases tables@[t as int].volumes@.len() - v,
        {
            lines.push(
                VolumeLine {
                    table: t,
                    volume: tables[t].volumes[v],
                    tombstones: tables[t].tombstones,
                },
            );
            v = v + 1;
            assert(lines@ =~= before + table_lines(tables@, t as int, v as int));
        }
        a = a + 1;
    }
    assert(lists_volumes(tables@, order@, lines@));
    lines
}

/// Every requested row is either found hot or looked up cold, never both.
pub proof fn law_rows_are_fetched_once(row_ids: Seq<i64>, found: Seq<i64>, id: i64)
    ensures
        missing_rows(row_ids, found).contains(id) <==> row_ids.contains(id) && !found.contains(id),
{
    let keep = |x: i64| !found.contains(x);
    broadcast use vstd::seq_lib::group_filter_ensures;

    if missing_rows(row_ids, found).contains(id) {
        row_ids.lemma_filter_contains_rev(keep, id);
        let k = choose|k: int|
            0 <= k < missing_rows(row_ids, found).len() && missing_rows(row_ids, found)[k] == id;
        assert(keep(missing_rows(row_ids, found)[k]));
    }
    if row_ids.contains(id) && !found.contains(id) {
        let k = choose|k: int| 0 <= k < row_ids.len() && row_ids[k] == id;
        row_ids.lemma_filter_contains(keep, k);
    }
}

/// Makes sure a table has a segment manager, which is created empty on first
/// use.
pub fn get_or_create_segment_manager<T>(managers: &mut NameMap<T>, table_name: &str, empty: T)
    requires
        old(managers).wf(),
    ensures
        final(managers).wf(),
        final(managers)@ == (if old(managers)@.dom().contains(table_name@) {
            old(managers)@
        } else {
            old(managers)@.insert(table_name@, empty)
        }),
{
    if !managers.contains_key(table_name) {
        let _ = managers.insert(String::from_str(table_name), empty);
    }
}

/// What an engine without a predicate binder makes of a partial index.
pub fn missing_partial_index_predicate_binder(canonical_sql: &str) -> (e: Error)
    ensures
        e@ == ErrorView::NotSupported(
            "cannot recover partial index predicate '"@ + canonical_sql@
                + "' without a configured composition binder"@,
        ),
{
    Error::NotSupported(
        String::from_str("cannot recover partial index predicate '").concat(canonical_sql).concat(
            "' without a configured composition binder",
        ),
    )
}

} // verus!
