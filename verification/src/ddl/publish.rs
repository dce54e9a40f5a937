//! Publication of catalog changes whose commit marker is durable.
use crate::ddl::final_catalog::lemma_contents_insert;
use crate::ddl::final_catalog::with_changes;
use crate::ddl::final_catalog::Catalog;
use crate::ddl::prepare::is_final_order;
use crate::ddl::prepare::is_last_change;
use crate::ddl::request::schema_contents;
use crate::ddl::request::CreatedTable;
use crate::ddl::request::PendingSchemaChange;
use crate::ddl::request::PendingTable;
use crate::ddl::request::SchemaPhysicalTransition;
use crate::ddl::request::Store;
use crate::ddl::request::StoreView;
use crate::error::refusal;
use crate::error::Error;
use crate::error::ErrorView;
use crate::model::option_view;
use crate::model::views;
use crate::model::Model;
use crate::names::NameMap;
use crate::schema::as_positions;
use crate::schema::derived_pk_name;
use crate::schema::lemma_filter_push;
use crate::schema::primary_key_positions;
use crate::schema::schema_derived_pk_index_name;
use crate::schema::DataType;
use crate::schema::IndexInfo;
use crate::schema::IndexType;
use crate::schema::IndexView;
use crate::schema::Schema;
use crate::schema::SchemaView;
use crate::text::eq_ignore_ascii_case;
use crate::text::lowercase_text;
use crate::text::same_ignoring_ascii_case;
use crate::text::same_text;
use crate::text::signed_decimal;
use crate::text::signed_decimal_digits;
use crate::text::to_lowercase;
use vstd::prelude::*;
use vstd::string::StringExecFns;

verus! {

pub type StoreMap = Map<Seq<char>, StoreView>;

/// Stores by their content.
pub open spec fn store_contents(map: Map<Seq<char>, Store>) -> StoreMap {
    map.map_values(|store: Store| store@)
}

pub proof fn lemma_store_insert(map: Map<Seq<char>, Store>, name: Seq<char>, store: Store)
    ensures
        store_contents(map.insert(name, store)) == store_contents(map).insert(name, store@),
{
    assert(store_contents(map.insert(name, store)) =~= store_contents(map).insert(name, store@));
}

pub proof fn lemma_store_remove(map: Map<Seq<char>, Store>, name: Seq<char>)
    ensures
        store_contents(map.remove(name)) == store_contents(map).remove(name),
{
    assert(store_contents(map.remove(name)) =~= store_contents(map).remove(name));
}

/// A column change that cold segments have to be read through.
#[derive(Debug)]
pub enum ColumnEvent {
    Dropped { column_name: String, schema_epoch: u64 },
    Renamed { old_name: String, new_name: String },
}

pub enum ColumnEventView {
    Dropped(Seq<char>, u64),
    Renamed(Seq<char>, Seq<char>),
}

impl View for ColumnEvent {
    type V = ColumnEventView;

    open spec fn view(&self) -> ColumnEventView {
        match self {
            ColumnEvent::Dropped { column_name, schema_epoch } => ColumnEventView::Dropped(
                column_name@,
                *schema_epoch,
            ),
            ColumnEvent::Renamed { old_name, new_name } => ColumnEventView::Renamed(
                old_name@,
                new_name@,
            ),
        }
    }
}

/// The owner of a table's cold segments, as far as the catalog moves it.
#[derive(Debug)]
pub struct ColdOwner {
    pub has_segments: bool,
    /// Indexes that already cover the cold segments.
    pub populated: NameMap<()>,
    pub events: Vec<ColumnEvent>,
}

pub struct ColdView {
    pub has_segments: bool,
    pub populated: Set<Seq<char>>,
    pub events: Seq<ColumnEventView>,
}

impl View for ColdOwner {
    type V = ColdView;

    open spec fn view(&self) -> ColdView {
        ColdView {
            has_segments: self.has_segments,
            populated: self.populated@.dom(),
            events: views(self.events@),
        }
    }
}

pub type ColdMap = Map<Seq<char>, ColdView>;

pub open spec fn cold_contents(map: Map<Seq<char>, ColdOwner>) -> ColdMap {
    map.map_values(|owner: ColdOwner| owner@)
}

/// Every owner's index list is a list of distinct names.
pub open spec fn cold_wf(map: Map<Seq<char>, ColdOwner>) -> bool {
    forall|name: Seq<char>| #[trigger] map.dom().contains(name) ==> map[name].populated.wf()
}

pub proof fn lemma_cold_insert(map: Map<Seq<char>, ColdOwner>, name: Seq<char>, owner: ColdOwner)
    ensures
        cold_contents(map.insert(name, owner)) == cold_contents(map).insert(name, owner@),
{
    assert(cold_contents(map.insert(name, owner)) =~= cold_contents(map).insert(name, owner@));
}

pub proof fn lemma_cold_remove(map: Map<Seq<char>, ColdOwner>, name: Seq<char>)
    ensures
        cold_contents(map.remove(name)) == cold_contents(map).remove(name),
{
    assert(cold_contents(map.remove(name)) =~= cold_contents(map).remove(name));
}

/// Every created table has its reservation at its turn.
pub open spec fn creatable(
    pending: Set<Seq<char>>,
    created: Seq<CreatedTable>,
    i: int,
) -> bool
    decreases created.len() - i,
{
    if i < 0 || i >= created.len() {
        true
    } else {
        let lower = lowercase_text(created[i].name@);
        pending.contains(lower) && creatable(pending.remove(lower), created, i + 1)
    }
}

pub open spec fn created_store(table: PendingTable) -> StoreView {
    StoreView { schema: table.schema@, indexes: views(table.indexes@) }
}

pub open spec fn stores_with_created(
    stores: StoreMap,
    pending: Map<Seq<char>, PendingTable>,
    created: Seq<CreatedTable>,
    i: int,
) -> StoreMap
    decreases created.len() - i,
{
    if i < 0 || i >= created.len() {
        stores
    } else {
        let lower = lowercase_text(created[i].name@);
        stores_with_created(
            stores.insert(lower, created_store(pending[lower])),
            pending.remove(lower),
            created,
            i + 1,
        )
    }
}

pub open spec fn schemas_with_created(
    schemas: Catalog,
    pending: Map<Seq<char>, PendingTable>,
    created: Seq<CreatedTable>,
    i: int,
) -> Catalog
    decreases created.len() - i,
{
    if i < 0 || i >= created.len() {
        schemas
    } else {
        let lower = lowercase_text(created[i].name@);
        schemas_with_created(
            schemas.insert(lower, pending[lower].schema@),
            pending.remove(lower),
            created,
            i + 1,
        )
    }
}

pub open spec fn pending_without_created(
    pending: Map<Seq<char>, PendingTable>,
    created: Seq<CreatedTable>,
    i: int,
) -> Map<Seq<char>, PendingTable>
    decreases created.len() - i,
{
    if i < 0 || i >= created.len() {
        pending
    } else {
        pending_without_created(
            pending.remove(lowercase_text(created[i].name@)),
            created,
            i + 1,
        )
    }
}

/// Moves created tables from their reservations into the catalog.
pub fn publish_created(
    schemas: &mut NameMap<Schema>,
    stores: &mut NameMap<Store>,
    pending: &mut NameMap<PendingTable>,
    created: &Vec<CreatedTable>,
)
    requires
        old(schemas).wf(),
        old(stores).wf(),
        old(pending).wf(),
        creatable(old(pending)@.dom(), created@, 0),
    ensures
        final(schemas).wf(),
        final(stores).wf(),
        final(pending).wf(),
        store_contents(final(stores)@) == stores_with_created(
            store_contents(old(stores)@),
            old(pending)@,
            created@,
            0,
        ),
        final(pending)@ == pending_without_created(old(pending)@, created@, 0),
        schema_contents(final(schemas)@) == schemas_with_created(
            schema_contents(old(schemas)@),
            old(pending)@,
            created@,
            0,
        ),
{
    let ghost all_schemas = schemas_with_created(schema_contents(schemas@), pending@, created@, 0);
    let ghost all_stores = stores_with_created(store_contents(stores@), pending@, created@, 0);
    let ghost all_pending = pending_without_created(pending@, created@, 0);
    let mut i: usize = 0;
    while i < created.len()
        invariant
            0 <= i <= created@.len(),
            schemas.wf(),
            stores.wf(),
            pending.wf(),
            creatable(pending@.dom(), created@, i as int),
            all_stores == stores_with_created(
                store_contents(stores@),
                pending@,
                created@,
                i as int,
            ),
            all_pending == pending_without_created(pending@, created@, i as int),
            all_schemas == schemas_with_created(
                schema_contents(schemas@),
                pending@,
                created@,
                i as int,
            ),
        decreases created@.len() - i,
    {
        let lower: String = to_lowercase(created[i].name.as_str());
        let ghost waiting = pending@;
        let removed: Option<PendingTable> = pending.remove(lower.as_str());
        assert(pending@.dom() =~= waiting.dom().remove(lower@));
        let table: PendingTable = removed.unwrap();
        let schema: Schema = table.schema.duplicate();
        let ghost before = stores@;
        let ghost store_view = created_store(table);
        let store: Store = Store { schema: table.schema, indexes: table.indexes };
        proof {
            lemma_store_insert(before, lower@, store);
            assert(store@ == store_view);
            lemma_contents_insert(schemas@, lower@, schema);
        }
        schemas.insert(lower.clone(), schema);
        stores.insert(lower, store);
        i = i + 1;
    }
}

/// What moving or renaming the values of a column came to: the index
/// descriptions the table has afterwards, or the text of the fault.
pub open spec fn moved_indexes(outcome: Result<Vec<IndexInfo>, String>) -> Result<
    Seq<IndexView>,
    Seq<char>,
> {
    match outcome {
        Ok(indexes) => Ok(views(indexes@)),
        Err(text) => Err(text@),
    }
}

/// A column change that failed on its table after the commit.
pub open spec fn transition_failure(
    txn_id: i64,
    change: PendingSchemaChange,
    text: Seq<char>,
) -> ErrorView {
    ErrorView::WalDurabilityUncertain(
        "transaction "@ + signed_decimal_digits(txn_id as int) + " committed ALTER TABLE '"@
            + lowercase_text(change.table_name@)
            + "' but physical publication requires recovery: "@ + text,
    )
}

/// Stores after the column changes from `i` on, and what ended them early:
/// each change gives its table the index descriptions that it came to, up to
/// the first that failed.
pub open spec fn stores_after_transitions(
    txn_id: i64,
    stores: StoreMap,
    changes: Seq<PendingSchemaChange>,
    outcomes: Seq<Result<Vec<IndexInfo>, String>>,
    i: int,
) -> (StoreMap, Option<ErrorView>)
    decreases changes.len() - i,
{
    if i < 0 || i >= changes.len() {
        (stores, None)
    } else if changes[i].physical_transition is None {
        stores_after_transitions(txn_id, stores, changes, outcomes, i + 1)
    } else {
        let lower = lowercase_text(changes[i].table_name@);
        match moved_indexes(outcomes[i]) {
            Err(text) => (stores, Some(transition_failure(txn_id, changes[i], text))),
            Ok(indexes) => stores_after_transitions(
                txn_id,
                stores.insert(lower, StoreView { indexes, ..stores[lower] }),
                changes,
                outcomes,
                i + 1,
            ),
        }
    }
}

/// Every staged schema's table is there.
pub open spec fn all_changeable(
    stores: Set<Seq<char>>,
    changes: Seq<PendingSchemaChange>,
) -> bool {
    forall|i: int|
        0 <= i < changes.len() ==> stores.contains(
            lowercase_text((#[trigger] changes[i]).table_name@),
        )
}

fn duplicate_indexes(indexes: &Vec<IndexInfo>) -> (r: Vec<IndexInfo>)
    ensures
        views(r@) == views(indexes@),
{
    let mut out: Vec<IndexInfo> = Vec::new();
    let mut i: usize = 0;
    while i < indexes.len()
        invariant
            0 <= i <= indexes@.len(),
            out@.len() == i,
            forall|j: int| 0 <= j < i ==> (#[trigger] out@[j])@ == indexes@[j]@,
        decreases indexes@.len() - i,
    {
        out.push(indexes[i].duplicate());
        i = i + 1;
    }
    assert(views(out@) =~= views(indexes@));
    out
}

/// Puts the outcomes of column changes into their tables, or reports the
/// first change that failed.
pub fn publish_transitions(
    txn_id: i64,
    stores: &mut NameMap<Store>,
    changes: &Vec<PendingSchemaChange>,
    outcomes: &Vec<Result<Vec<IndexInfo>, String>>,
) -> (r: Result<(), Error>)
    requires
        old(stores).wf(),
        outcomes@.len() == changes@.len(),
        all_changeable(old(stores)@.dom(), changes@),
    ensures
        final(stores).wf(),
        final(stores)@.dom() == old(stores)@.dom(),
        stores_after_transitions(
            txn_id,
            store_contents(old(stores)@),
            changes@,
            outcomes@,
            0,
        ) == (store_contents(final(stores)@), refusal(r)),
{
    let ghost all = stores_after_transitions(
        txn_id,
        store_contents(stores@),
        changes@,
        outcomes@,
        0,
    );
    let mut i: usize = 0;
    while i < changes.len()
        invariant
            0 <= i <= changes@.len(),
            stores.wf(),
            outcomes@.len() == changes@.len(),
            all_changeable(stores@.dom(), changes@),
            stores@.dom() =~= old(stores)@.dom(),
            all == stores_after_transitions(
                txn_id,
                store_contents(old(stores)@),
                changes@,
                outcomes@,
                0,
            ),
            all == stores_after_transitions(
                txn_id,
                store_contents(stores@),
                changes@,
                outcomes@,
                i as int,
            ),
        decreases changes@.len() - i,
    {
        if changes[i].physical_transition.is_some() {
            let lower: String = to_lowercase(changes[i].table_name.as_str());
            match &outcomes[i] {
                Err(text) => {
                    return Err(
                        Error::WalDurabilityUncertain {
                            detail: String::from_str("transaction ").concat(
                                signed_decimal(txn_id).as_str(),
                            ).concat(" committed ALTER TABLE '").concat(lower.as_str()).concat(
                                "' but physical publication requires recovery: ",
                            ).concat(text.as_str()),
                        },
                    );
                },
                Ok(indexes) => {
                    let ghost before = stores@;
                    assert(before.dom().contains(lower@));
                    let store: Store = stores.remove(lower.as_str()).unwrap();
                    assert(store_contents(before)[lower@] == store@);
                    let next = Store { schema: store.schema, indexes: duplicate_indexes(indexes) };
                    proof {
                        lemma_store_remove(before, lower@);
                        lemma_store_insert(stores@, lower@, next);
                        assert(store_contents(before).remove(lower@).insert(lower@, next@)
                            =~= store_contents(before).insert(lower@, next@));
                    }
                    stores.insert(lower, next);
                },
            }
        }
        i = i + 1;
    }
    Ok(())
}

/// Final schemas whose rows have to be brought to the new shape when they are
/// read: positions among the first `n` of the order.
pub open spec fn normalized_positions(
    changes: Seq<PendingSchemaChange>,
    order: Seq<usize>,
    n: int,
) -> Seq<usize>
    decreases n,
{
    if n <= 0 {
        Seq::empty()
    } else if changes[order[n - 1] as int].requires_row_normalization {
        normalized_positions(changes, order, n - 1).push((n - 1) as usize)
    } else {
        normalized_positions(changes, order, n - 1)
    }
}

/// The tables whose stores are marked for row normalization.
pub fn stores_to_normalize(changes: &Vec<PendingSchemaChange>, order: &Vec<usize>) -> (out: Vec<
    usize,
>)
    requires
        is_final_order(changes@, order@),
    ensures
        out@ == normalized_positions(changes@, order@, order@.len() as int),
{
    let mut out: Vec<usize> = Vec::new();
    let mut i: usize = 0;
    while i < order.len()
        invariant
            0 <= i <= order@.len(),
            is_final_order(changes@, order@),
            out@ == normalized_positions(changes@, order@, i as int),
        decreases order@.len() - i,
    {
        assert(is_last_change(changes@, order@[i as int] as int));
        if changes[order[i]].requires_row_normalization {
            out.push(i);
        }
        i = i + 1;
    }
    out
}

/// Final schemas whose tables have a cold owner: positions among the first
/// `n` of the order.
pub open spec fn remapped_positions(
    cold: Set<Seq<char>>,
    changes: Seq<PendingSchemaChange>,
    order: Seq<usize>,
    n: int,
) -> Seq<usize>
    decreases n,
{
    if n <= 0 {
        Seq::empty()
    } else if cold.contains(lowercase_text(changes[order[n - 1] as int].table_name@)) {
        remapped_positions(cold, changes, order, n - 1).push((n - 1) as usize)
    } else {
        remapped_positions(cold, changes, order, n - 1)
    }
}

/// The tables whose cold segments are read through new column mappings.
pub fn mappings_to_refresh(
    cold: &NameMap<ColdOwner>,
    changes: &Vec<PendingSchemaChange>,
    order: &Vec<usize>,
) -> (out: Vec<usize>)
    requires
        cold.wf(),
        is_final_order(changes@, order@),
    ensures
        out@ == remapped_positions(cold@.dom(), changes@, order@, order@.len() as int),
{
    let mut out: Vec<usize> = Vec::new();
    let mut i: usize = 0;
    while i < order.len()
        invariant
            0 <= i <= order@.len(),
            cold.wf(),
            is_final_order(changes@, order@),
            out@ == remapped_positions(cold@.dom(), changes@, order@, i as int),
        decreases order@.len() - i,
    {
        assert(is_last_change(changes@, order@[i as int] as int));
        let lower: String = to_lowercase(changes[order[i]].table_name.as_str());
        if cold.contains_key(lower.as_str()) {
            out.push(i);
        }
        i = i + 1;
    }
    out
}

pub open spec fn other_than(name: Seq<char>) -> spec_fn(IndexView) -> bool {
    |index: IndexView| index.name != name
}

/// Indexes without those of one name.
pub open spec fn without_index(indexes: Seq<IndexView>, name: Seq<char>) -> Seq<IndexView> {
    indexes.filter(other_than(name))
}

pub fn remove_index(indexes: Vec<IndexInfo>, name: &str) -> (out: Vec<IndexInfo>)
    ensures
        views(out@) == without_index(views(indexes@), name@),
{
    let ghost all = indexes@;
    let ghost contents = views(all);
    let ghost keep = other_than(name@);
    let mut rest: Vec<IndexInfo> = indexes;
    let mut reversed: Vec<IndexInfo> = Vec::new();
    let ghost total = all.len() as int;
    while rest.len() > 0
        invariant
            rest@ == all.take(rest@.len() as int),
            rest@.len() + reversed@.len() == total,
            total == all.len(),
            forall|k: int|
                0 <= k < reversed@.len() ==> #[trigger] reversed@[k] == all[total - 1 - k],
        decreases rest@.len(),
    {
        let ghost before = rest@;
        let item: IndexInfo = rest.pop().unwrap();
        reversed.push(item);
        assert(rest@ =~= all.take(rest@.len() as int));
    }
    let mut out: Vec<IndexInfo> = Vec::new();
    assert(views(out@) =~= contents.take(0).filter(keep)) by {
        reveal(Seq::filter);
    }
    while reversed.len() > 0
        invariant
            reversed@.len() <= total,
            total == all.len(),
            contents == views(all),
            keep == other_than(name@),
            forall|k: int|
                0 <= k < reversed@.len() ==> #[trigger] reversed@[k] == all[total - 1 - k],
            views(out@) == contents.take(total - reversed@.len()).filter(keep),
        decreases reversed@.len(),
    {
        let ghost at = total - reversed@.len();
        let item: IndexInfo = reversed.pop().unwrap();
        proof {
            lemma_filter_push(contents, at, keep);
            assert(contents[at] == item@);
        }
        if !same_text(item.name.as_str(), name) {
            let ghost kept = out@;
            out.push(item);
            assert(views(out@) =~= views(kept).push(item@));
        }
    }
    assert(contents.take(total) =~= contents);
    out
}

/// The index that enforces a schema's primary key.
pub open spec fn key_index(schema: SchemaView) -> IndexView {
    let column = schema.columns[primary_key_positions(schema)[0]];
    IndexView {
        name: derived_pk_name(schema)->Some_0,
        index_type: if column.data_type == DataType::Integer {
            IndexType::PrimaryKey
        } else {
            IndexType::BTree
        },
        is_unique: true,
        column_ids: seq![column.id as i32],
        predicate_columns: None,
    }
}

/// Adds the index that enforces a schema's primary key, where it has one.
pub open spec fn with_key_index(indexes: Seq<IndexView>, schema: SchemaView) -> Seq<IndexView> {
    if derived_pk_name(schema) is Some {
        indexes.push(key_index(schema))
    } else {
        indexes
    }
}

/// Describes the index that enforces a schema's primary key, where it has
/// one. An INTEGER key is the row identity itself; any other key gets a
/// unique ordered index.
pub fn register_pk_index(schema: &Schema) -> (r: Option<IndexInfo>)
    ensures
        r is Some <==> derived_pk_name(schema@) is Some,
        r matches Some(index) ==> index@ == key_index(schema@),
{
    match schema_derived_pk_index_name(schema) {
        None => None,
        Some(name) => {
            let keys: Vec<usize> = schema.primary_key_indices();
            assert(as_positions(keys@).len() == keys@.len());
            let key: usize = keys[0];
            assert(as_positions(keys@)[0] == key);
            assert(schema@.columns[key as int] == schema.columns@[key as int]@);
            let index_type: IndexType = if schema.columns[key].data_type == DataType::Integer {
                IndexType::PrimaryKey
            } else {
                IndexType::BTree
            };
            let mut column_ids: Vec<i32> = Vec::new();
            column_ids.push(schema.columns[key].id as i32);
            let index = IndexInfo {
                name,
                index_type,
                is_unique: true,
                column_ids,
                predicate_columns: None,
            };
            assert(index@.column_ids =~= key_index(schema@).column_ids);
            Some(index)
        },
    }
}

/// A store after its final schema was installed.
pub open spec fn published_store(store: StoreView, schema: SchemaView) -> StoreView {
    StoreView {
        schema,
        indexes: if primary_key_positions(store.schema) != primary_key_positions(schema) {
            with_key_index(
                match derived_pk_name(store.schema) {
                    Some(name) => without_index(store.indexes, name),
                    None => store.indexes,
                },
                schema,
            )
        } else {
            store.indexes
        },
    }
}

/// A store whose new primary-key index could not be registered: it has its
/// final schema, and the old index is gone.
pub open spec fn unkeyed_store(store: StoreView, schema: SchemaView) -> StoreView {
    StoreView {
        schema,
        indexes: match derived_pk_name(store.schema) {
            Some(name) => without_index(store.indexes, name),
            None => store.indexes,
        },
    }
}

/// Whether a new primary-key index could not be registered.
pub open spec fn key_index_failure(
    store: StoreView,
    schema: SchemaView,
    outcome: Result<(), Error>,
) -> Option<ErrorView> {
    if primary_key_positions(store.schema) != primary_key_positions(schema) && derived_pk_name(
        schema,
    ) is Some {
        refusal(outcome)
    } else {
        None
    }
}

/// Every final schema's table is there.
pub open spec fn changeable(
    stores: Set<Seq<char>>,
    changes: Seq<PendingSchemaChange>,
    order: Seq<usize>,
) -> bool {
    forall|a: int|
        0 <= a < order.len() ==> stores.contains(
            lowercase_text(changes[#[trigger] order[a] as int].table_name@),
        )
}

/// What final schemas are installed in.
#[verifier::ext_equal]
pub struct SchemaOwners {
    pub schemas: Catalog,
    pub stores: StoreMap,
    pub cold: ColdMap,
}

/// Owners after the final schemas from `i` on, and what ended them early: the
/// first primary key that could not be registered.
pub open spec fn with_final_schemas(
    owners: SchemaOwners,
    changes: Seq<PendingSchemaChange>,
    order: Seq<usize>,
    outcomes: Seq<Result<(), Error>>,
    schema_epoch: u64,
    i: int,
) -> (SchemaOwners, Option<ErrorView>)
    decreases order.len() - i,
{
    if i < 0 || i >= order.len() {
        (owners, None)
    } else {
        let change = changes[order[i] as int];
        let lower = lowercase_text(change.table_name@);
        let store = owners.stores[lower];
        match key_index_failure(store, change.schema@, outcomes[i]) {
            Some(e) => (
                SchemaOwners {
                    stores: owners.stores.insert(lower, unkeyed_store(store, change.schema@)),
                    ..owners
                },
                Some(e),
            ),
            None => with_final_schemas(
                SchemaOwners {
                    schemas: owners.schemas.insert(lower, change.schema@),
                    stores: owners.stores.insert(lower, published_store(store, change.schema@)),
                    cold: cold_with_events(owners.cold, changes, lower, schema_epoch),
                },
                changes,
                order,
                outcomes,
                schema_epoch,
                i + 1,
            ),
        }
    }
}

/// Final schemas that all took effect are the catalog's, and no table came or
/// went.
pub proof fn lemma_final_schemas(
    owners: SchemaOwners,
    changes: Seq<PendingSchemaChange>,
    order: Seq<usize>,
    outcomes: Seq<Result<(), Error>>,
    schema_epoch: u64,
    i: int,
)
    requires
        0 <= i <= order.len(),
        changeable(owners.stores.dom(), changes, order),
    ensures
        ({
            let (after, fault) = with_final_schemas(
                owners,
                changes,
                order,
                outcomes,
                schema_epoch,
                i,
            );
            &&& after.stores.dom() == owners.stores.dom()
            &&& fault is None ==> after.schemas == with_changes(owners.schemas, changes, order, i)
        }),
    decreases order.len() - i,
{
    if i < order.len() {
        let change = changes[order[i] as int];
        let lower = lowercase_text(change.table_name@);
        let store = owners.stores[lower];
        assert(owners.stores.insert(lower, unkeyed_store(store, change.schema@)).dom()
            =~= owners.stores.dom());
        let next = SchemaOwners {
            schemas: owners.schemas.insert(lower, change.schema@),
            stores: owners.stores.insert(lower, published_store(store, change.schema@)),
            cold: cold_with_events(owners.cold, changes, lower, schema_epoch),
        };
        assert(next.stores.dom() =~= owners.stores.dom());
        lemma_final_schemas(next, changes, order, outcomes, schema_epoch, i + 1);
    }
}

fn same_positions(a: &Vec<usize>, b: &Vec<usize>) -> (r: bool)
    ensures
        r == (as_positions(a@) == as_positions(b@)),
{
    assert(as_positions(a@).len() == a@.len());
    assert(as_positions(b@).len() == b@.len());
    if a.len() != b.len() {
        return false;
    }
    let mut i: usize = 0;
    while i < a.len()
        invariant
            0 <= i <= a@.len() == b@.len(),
            forall|k: int| 0 <= k < i ==> a@[k] == b@[k],
        decreases a@.len() - i,
    {
        if a[i] != b[i] {
            assert(as_positions(a@)[i as int] == a@[i as int]);
            assert(as_positions(b@)[i as int] == b@[i as int]);
            return false;
        }
        i = i + 1;
    }
    assert(as_positions(a@) =~= as_positions(b@));
    true
}

/// Gives a store its final schema. The new primary-key index may be refused.
fn publish_store(store: Store, schema: &Schema, outcome: &Result<(), Error>) -> (r: (
    Store,
    Option<Error>,
))
    ensures
        option_view(r.1) == key_index_failure(store@, schema@, *outcome),
        r.0@ == if r.1 is Some {
            unkeyed_store(store@, schema@)
        } else {
            published_store(store@, schema@)
        },
{
    let old_keys: Vec<usize> = store.schema.primary_key_indices();
    let new_keys: Vec<usize> = schema.primary_key_indices();
    let mut indexes: Vec<IndexInfo> = store.indexes;
    if !same_positions(&old_keys, &new_keys) {
        match schema_derived_pk_index_name(&store.schema) {
            Some(name) => {
                indexes = remove_index(indexes, name.as_str());
            },
            None => {},
        }
        match register_pk_index(schema) {
            Some(index) => {
                if let Err(error) = outcome {
                    return (
                        Store { schema: schema.duplicate(), indexes },
                        Some(error.duplicate()),
                    );
                }
                let ghost before = indexes@;
                indexes.push(index);
                assert(views(indexes@) =~= views(before).push(index@));
            },
            None => {},
        }
    }
    (Store { schema: schema.duplicate(), indexes }, None)
}

/// The column changes of one table, in their order.
pub open spec fn events_of(
    changes: Seq<PendingSchemaChange>,
    name: Seq<char>,
    schema_epoch: u64,
    n: int,
) -> Seq<ColumnEventView>
    decreases n,
{
    if n <= 0 {
        Seq::empty()
    } else {
        let earlier_events = events_of(changes, name, schema_epoch, n - 1);
        if !same_ignoring_ascii_case(changes[n - 1].table_name@, name) {
            earlier_events
        } else {
            match changes[n - 1].physical_transition {
                Some(SchemaPhysicalTransition::DropColumn { column_name, column_index }) =>
                    earlier_events.push(ColumnEventView::Dropped(column_name@, schema_epoch)),
                Some(SchemaPhysicalTransition::RenameColumn { old_name, new_name }) =>
                    earlier_events.push(ColumnEventView::Renamed(old_name@, new_name@)),
                None => earlier_events,
            }
        }
    }
}

/// The cold owner of a changed table, where there is one, learns of its
/// column changes.
pub open spec fn cold_with_events(
    cold: ColdMap,
    changes: Seq<PendingSchemaChange>,
    name: Seq<char>,
    schema_epoch: u64,
) -> ColdMap {
    if cold.dom().contains(name) {
        cold.insert(
            name,
            ColdView {
                events: cold[name].events + events_of(
                    changes,
                    name,
                    schema_epoch,
                    changes.len() as int,
                ),
                ..cold[name]
            },
        )
    } else {
        cold
    }
}

fn append_events(
    owner: &mut ColdOwner,
    changes: &Vec<PendingSchemaChange>,
    name: &str,
    schema_epoch: u64,
)
    ensures
        final(owner)@ == (ColdView {
            events: old(owner)@.events + events_of(
                changes@,
                name@,
                schema_epoch,
                changes@.len() as int,
            ),
            ..old(owner)@
        }),
        final(owner).populated == old(owner).populated,
{
    let ghost before = owner@.events;
    let mut i: usize = 0;
    assert(before + events_of(changes@, name@, schema_epoch, 0) =~= before);
    while i < changes.len()
        invariant
            0 <= i <= changes@.len(),
            owner.populated == old(owner).populated,
            owner.has_segments == old(owner).has_segments,
            views(owner.events@) == before + events_of(
                changes@,
                name@,
                schema_epoch,
                i as int,
            ),
        decreases changes@.len() - i,
    {
        let ghost held = owner.events@;
        let ghost known = events_of(changes@, name@, schema_epoch, i as int);
        if eq_ignore_ascii_case(changes[i].table_name.as_str(), name) {
            match &changes[i].physical_transition {
                Some(SchemaPhysicalTransition::DropColumn { column_name, column_index }) => {
                    let event = ColumnEvent::Dropped {
                        column_name: column_name.clone(),
                        schema_epoch,
                    };
                    owner.events.push(event);
                    assert(views(owner.events@) =~= views(held).push(event@));
                    assert(views(held).push(event@) =~= before + known.push(event@));
                },
                Some(SchemaPhysicalTransition::RenameColumn { old_name, new_name }) => {
                    let event = ColumnEvent::Renamed {
                        old_name: old_name.clone(),
                        new_name: new_name.clone(),
                    };
                    owner.events.push(event);
                    assert(views(owner.events@) =~= views(held).push(event@));
                    assert(views(held).push(event@) =~= before + known.push(event@));
                },
                None => {},
            }
        }
        i = i + 1;
    }
}

/// Tells the cold owner of a changed table about its column changes.
fn publish_column_events(
    cold: &mut NameMap<ColdOwner>,
    changes: &Vec<PendingSchemaChange>,
    name: &str,
    schema_epoch: u64,
)
    requires
        old(cold).wf(),
        cold_wf(old(cold)@),
    ensures
        final(cold).wf(),
        cold_wf(final(cold)@),
        cold_contents(final(cold)@) == cold_with_events(
            cold_contents(old(cold)@),
            changes@,
            name@,
            schema_epoch,
        ),
{
    let ghost before = cold@;
    match cold.remove(name) {
        Some(found) => {
            let mut owner: ColdOwner = found;
            assert(cold_contents(before)[name@] == owner@);
            append_events(&mut owner, changes, name, schema_epoch);
            proof {
                lemma_cold_remove(before, name@);
                lemma_cold_insert(cold@, name@, owner);
                assert(cold_contents(before).remove(name@).insert(name@, owner@)
                    =~= cold_contents(before).insert(name@, owner@));
            }
            cold.insert(String::from_str(name), owner);
        },
        None => {
            assert(before.remove(name@) =~= before);
        },
    }
}

pub open spec fn owners_of(
    schemas: NameMap<Schema>,
    stores: NameMap<Store>,
    cold: NameMap<ColdOwner>,
) -> SchemaOwners {
    SchemaOwners {
        schemas: schema_contents(schemas@),
        stores: store_contents(stores@),
        cold: cold_contents(cold@),
    }
}

/// Installs the final schemas table by table: in its store, in the catalog and
/// with its cold segments. The first primary key that cannot be registered
/// ends it.
pub fn publish_schemas(
    schemas: &mut NameMap<Schema>,
    stores: &mut NameMap<Store>,
    cold: &mut NameMap<ColdOwner>,
    changes: &Vec<PendingSchemaChange>,
    order: &Vec<usize>,
    outcomes: &Vec<Result<(), Error>>,
    schema_epoch: u64,
) -> (r: Result<(), Error>)
    requires
        old(schemas).wf(),
        old(stores).wf(),
        old(cold).wf(),
        cold_wf(old(cold)@),
        is_final_order(changes@, order@),
        outcomes@.len() == order@.len(),
        changeable(old(stores)@.dom(), changes@, order@),
    ensures
        final(schemas).wf(),
        final(stores).wf(),
        final(cold).wf(),
        cold_wf(final(cold)@),
        with_final_schemas(
            owners_of(*old(schemas), *old(stores), *old(cold)),
            changes@,
            order@,
            outcomes@,
            schema_epoch,
            0,
        ) == (owners_of(*final(schemas), *final(stores), *final(cold)), refusal(r)),
{
    let ghost all = with_final_schemas(
        owners_of(*schemas, *stores, *cold),
        changes@,
        order@,
        outcomes@,
        schema_epoch,
        0,
    );
    let mut i: usize = 0;
    while i < order.len()
        invariant
            0 <= i <= order@.len(),
            schemas.wf(),
            stores.wf(),
            cold.wf(),
            cold_wf(cold@),
            is_final_order(changes@, order@),
            outcomes@.len() == order@.len(),
            changeable(stores@.dom(), changes@, order@),
            stores@.dom() =~= old(stores)@.dom(),
            all == with_final_schemas(
                owners_of(*old(schemas), *old(stores), *old(cold)),
                changes@,
                order@,
                outcomes@,
                schema_epoch,
                0,
            ),
            all == with_final_schemas(
                owners_of(*schemas, *stores, *cold),
                changes@,
                order@,
                outcomes@,
                schema_epoch,
                i as int,
            ),
        decreases order@.len() - i,
    {
        assert(is_last_change(changes@, order@[i as int] as int));
        let change: &PendingSchemaChange = &changes[order[i]];
        let lower: String = to_lowercase(change.table_name.as_str());
        let ghost before = stores@;
        assert(before.dom().contains(lower@));
        let store: Store = stores.remove(lower.as_str()).unwrap();
        assert(store_contents(before)[lower@] == store@);
        let (next, fault) = publish_store(store, &change.schema, &outcomes[i]);
        proof {
            lemma_store_remove(before, lower@);
            lemma_store_insert(stores@, lower@, next);
            assert(store_contents(before).remove(lower@).insert(lower@, next@) =~= store_contents(
                before,
            ).insert(lower@, next@));
        }
        stores.insert(lower.clone(), next);
        if let Some(error) = fault {
            return Err(error);
        }
        let schema: Schema = change.schema.duplicate();
        proof {
            lemma_contents_insert(schemas@, lower@, schema);
        }
        publish_column_events(cold, changes, lower.as_str(), schema_epoch);
        schemas.insert(lower, schema);
        i = i + 1;
    }
    Ok(())
}

} // verus!
