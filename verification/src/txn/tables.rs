//! The tables that a transaction sees.
use crate::ddl::request::CatalogState;
use crate::ddl::request::PendingIndexDrop;
use crate::ddl::request::PendingSchemaChange;
use crate::ddl::request::PendingTable;
use crate::ddl::request::Store;
use crate::error::outcome;
use crate::error::refusal;
use crate::error::Error;
use crate::error::ErrorView;
use crate::model::views;
use crate::model::Model;
use crate::names::NameMap;
use crate::schema::judged;
use crate::schema::validate_schema;
use crate::schema::IndexInfo;
use crate::schema::IndexType;
use crate::schema::Schema;
use crate::schema::SchemaVerdicts;
use crate::schema::SchemaView;
use crate::text::eq_ignore_ascii_case;
use crate::text::lowercase_text;
use crate::text::same_ignoring_ascii_case;
use crate::text::same_text;
use crate::text::to_lowercase;
use crate::text::to_lowercase_cow;
use crate::txn::order::all_distinct;
use crate::txn::order::is_name_order;
use crate::txn::order::order_by_name;
use crate::txn::order::string_views;
use std::borrow::Cow;
use vstd::prelude::*;
use vstd::string::StringExecFns;

verus! {

/// Where the rows of a table live for a transaction.
#[derive(Debug, Clone, Copy, PartialEq, Eq, Structural)]
pub enum StoreSource {
    /// The transaction created the table and has not committed it.
    Unpublished,
    Published,
}

/// Whether a transaction owns a table that is held back.
pub open spec fn owns_pending(
    pending: Map<Seq<char>, PendingTable>,
    txn_id: i64,
    name: Seq<char>,
) -> bool {
    pending.dom().contains(name) && pending[name].owner_txn_id == txn_id
}

/// Where a transaction finds the store of a table. Nobody but its creator
/// sees a table before it is published.
pub open spec fn store_source(state: CatalogState, txn_id: i64, name: Seq<char>) -> Option<
    StoreSource,
> {
    if owns_pending(state.pending@, txn_id, name) {
        Some(StoreSource::Unpublished)
    } else if state.stores@.dom().contains(name) {
        Some(StoreSource::Published)
    } else {
        None
    }
}

/// Where a transaction finds the store of a table.
pub fn version_store_for_transaction(state: &CatalogState, txn_id: i64, table_name: &str) -> (r:
    Option<StoreSource>)
    requires
        state.wf(),
    ensures
        r == store_source(*state, txn_id, table_name@),
{
    if let Some(table) = state.pending.get(table_name) {
        if table.owner_txn_id == txn_id {
            return Some(StoreSource::Unpublished);
        }
    }
    if state.stores.contains_key(table_name) {
        Some(StoreSource::Published)
    } else {
        None
    }
}

/// How reads of a table treat its cold segments.
#[derive(Debug, Clone, Copy, PartialEq, Eq, Structural)]
pub enum ColdReads {
    /// The table has no cold owner.
    HotOnly,
    /// Everything committed is visible.
    Latest,
    /// Only what was committed before the transaction began.
    AsOf(u64),
}

/// What a table handle is made of.
#[derive(Debug, Clone, Copy, PartialEq, Eq, Structural)]
pub struct TableHandlePlan {
    pub source: StoreSource,
    /// Position of the table among those the transaction touched; none where
    /// it has to be added.
    pub touched: Option<usize>,
    /// A cold owner has to be made first.
    pub creates_manager: bool,
    pub reads: ColdReads,
}

/// The first position of a name.
pub open spec fn first_position(names: Seq<Seq<char>>, name: Seq<char>, r: Option<usize>) -> bool {
    match r {
        Some(i) => i < names.len() && names[i as int] == name && forall|k: int|
            0 <= k < i ==> #[trigger] names[k] != name,
        None => forall|k: int| 0 <= k < names.len() ==> #[trigger] names[k] != name,
    }
}

fn find_name(names: &Vec<String>, name: &str) -> (r: Option<usize>)
    ensures
        first_position(string_views(names@), name@, r),
{
    let ghost all = string_views(names@);
    let mut i: usize = 0;
    while i < names.len()
        invariant
            0 <= i <= names@.len(),
            all == string_views(names@),
            forall|k: int| 0 <= k < i ==> #[trigger] all[k] != name@,
        decreases names@.len() - i,
    {
        assert(all[i as int] == names@[i as int]@);
        if same_text(names[i].as_str(), name) {
            return Some(i);
        }
        i = i + 1;
    }
    None
}

/// What the registry says of a transaction.
#[derive(Debug, Clone, Copy, PartialEq, Eq, Structural)]
pub struct TransactionMode {
    pub is_snapshot: bool,
    pub begin_sequence: u64,
}

/// Whether the handle of a table keeps a cold owner. A published table keeps
/// the one of its future: a checkpoint may move its rows to cold while the
/// handle lives.
pub open spec fn keeps_cold_owner(
    source: StoreSource,
    has_manager: bool,
    log_enabled: bool,
) -> bool {
    has_manager || (source == StoreSource::Published && log_enabled)
}

pub open spec fn cold_reads(
    source: StoreSource,
    has_manager: bool,
    log_enabled: bool,
    mode: TransactionMode,
) -> ColdReads {
    if !keeps_cold_owner(source, has_manager, log_enabled) {
        ColdReads::HotOnly
    } else if mode.is_snapshot {
        ColdReads::AsOf(mode.begin_sequence)
    } else {
        ColdReads::Latest
    }
}

/// Resolves a table for a transaction. `touched` names the tables it used so
/// far; `has_manager` says whether the table has a cold owner.
pub fn get_table_for_transaction(
    state: &CatalogState,
    txn_id: i64,
    table_name: &str,
    touched: &Vec<String>,
    has_manager: bool,
    log_enabled: bool,
    mode: TransactionMode,
) -> (r: Result<TableHandlePlan, Error>)
    requires
        state.wf(),
    ensures
        match store_source(*state, txn_id, lowercase_text(table_name@)) {
            None => refusal(r) == Some(ErrorView::TableNotFound(lowercase_text(table_name@))),
            Some(source) => r matches Ok(plan) && plan.source == source && first_position(
                string_views(touched@),
                lowercase_text(table_name@),
                plan.touched,
            ) && plan.creates_manager == (!has_manager && source == StoreSource::Published
                && log_enabled) && plan.reads == cold_reads(
                source,
                has_manager,
                log_enabled,
                mode,
            ),
        },
{
    let lower: String = match to_lowercase_cow(table_name) {
        Cow::Borrowed(text) => String::from_str(text),
        Cow::Owned(text) => text,
    };
    match version_store_for_transaction(state, txn_id, lower.as_str()) {
        None => Err(Error::TableNotFound(lower)),
        Some(source) => {
            let published: bool = match source {
                StoreSource::Published => true,
                StoreSource::Unpublished => false,
            };
            let creates_manager: bool = !has_manager && published && log_enabled;
            let reads: ColdReads = if !has_manager && !creates_manager {
                ColdReads::HotOnly
            } else if mode.is_snapshot {
                ColdReads::AsOf(mode.begin_sequence)
            } else {
                ColdReads::Latest
            };
            Ok(
                TableHandlePlan {
                    source,
                    touched: find_name(touched, lower.as_str()),
                    creates_manager,
                    reads,
                },
            )
        },
    }
}

/// Why a table cannot be created.
pub open spec fn create_refusal(
    state: CatalogState,
    name: Seq<char>,
    schema: Schema,
    identity: Result<(), Error>,
    verdicts: SchemaVerdicts,
    key_index: Result<(), Error>,
) -> Option<ErrorView> {
    let lower = lowercase_text(name);
    if schema.table_name_lower@ != lower {
        Some(
            ErrorView::InvalidArgument(
                "transactional CREATE TABLE name '"@ + name + "' does not match schema name '"@
                    + schema.table_name@ + "'"@,
            ),
        )
    } else if identity is Err {
        refusal(identity)
    } else if judged(schema@, verdicts) is Some {
        judged(schema@, verdicts)
    } else if key_index is Err {
        refusal(key_index)
    } else if state.pending@.dom().contains(lower) || state.schemas@.dom().contains(lower) {
        Some(ErrorView::TableAlreadyExists(lower))
    } else if state.views@.dom().contains(lower) {
        Some(ErrorView::ViewAlreadyExists(name))
    } else {
        None
    }
}

/// Reserves a table for a transaction without publishing it. `identity` says
/// whether the schema got its catalog identities, `key_index` whether its
/// primary-key index `indexes` could be registered.
pub fn create_table(
    state: &mut CatalogState,
    touched: &mut Vec<String>,
    txn_id: i64,
    name: &str,
    schema: Schema,
    indexes: Vec<IndexInfo>,
    identity: Result<(), Error>,
    verdicts: &SchemaVerdicts,
    key_index: Result<(), Error>,
) -> (r: Result<(), Error>)
    requires
        old(state).wf(),
    ensures
        final(state).wf(),
        refusal(r) == create_refusal(
            *old(state),
            name@,
            schema,
            identity,
            *verdicts,
            key_index,
        ),
        final(state).schemas == old(state).schemas,
        final(state).stores == old(state).stores,
        final(state).views == old(state).views,
        r is Ok ==> final(state).pending@ == old(state).pending@.insert(
            lowercase_text(name@),
            PendingTable { owner_txn_id: txn_id, schema, indexes },
        ) && string_views(final(touched)@) == string_views(old(touched)@).push(
            lowercase_text(name@),
        ),
        r is Err ==> *final(state) == *old(state) && *final(touched) == *old(touched),
{
    let lower: String = to_lowercase(name);
    if !same_text(schema.table_name_lower.as_str(), lower.as_str()) {
        return Err(
            Error::InvalidArgument(
                String::from_str("transactional CREATE TABLE name '").concat(name).concat(
                    "' does not match schema name '",
                ).concat(schema.table_name.as_str()).concat("'"),
            ),
        );
    }
    if let Err(error) = identity {
        return Err(error);
    }
    let judgement: Result<(), Error> = validate_schema(&schema, verdicts);
    if judgement.is_err() {
        return judgement;
    }
    if let Err(error) = key_index {
        return Err(error);
    }
    if state.pending.contains_key(lower.as_str()) || state.schemas.contains_key(lower.as_str()) {
        return Err(Error::TableAlreadyExists(lower));
    }
    if state.views.contains_key(lower.as_str()) {
        return Err(Error::ViewAlreadyExists(String::from_str(name)));
    }
    let ghost before = touched@;
    touched.push(lower.clone());
    assert(string_views(touched@) =~= string_views(before).push(lower@));
    state.pending.insert(lower, PendingTable { owner_txn_id: txn_id, schema, indexes });
    Ok(())
}

/// Puts a table back into the published catalog.
pub fn restore_table(
    state: &mut CatalogState,
    schema_epoch: &mut u64,
    name: &str,
    schema: Schema,
    indexes: Vec<IndexInfo>,
    key_index: Result<(), Error>,
) -> (r: Result<(), Error>)
    requires
        old(state).wf(),
    ensures
        final(state).wf(),
        refusal(r) == if key_index is Err {
            refusal(key_index)
        } else if old(state).schemas@.dom().contains(lowercase_text(name@)) {
            Some(ErrorView::TableAlreadyExists(lowercase_text(name@)))
        } else {
            None
        },
        final(state).pending == old(state).pending,
        final(state).views == old(state).views,
        match r {
            Ok(_) => {
                let lower = lowercase_text(name@);
                &&& final(state).schemas@.dom() == old(state).schemas@.dom().insert(lower)
                &&& final(state).schemas@[lower]@ == schema@
                &&& final(state).schemas@.remove(lower) == old(state).schemas@
                &&& final(state).stores@ == old(state).stores@.insert(
                    lower,
                    Store { schema, indexes },
                )
                &&& *final(schema_epoch) == (*old(schema_epoch)).wrapping_add(1)
            },
            Err(_) => *final(state) == *old(state) && *final(schema_epoch) == *old(schema_epoch),
        },
{
    if let Err(error) = key_index {
        return Err(error);
    }
    let lower: String = to_lowercase(name);
    if state.schemas.contains_key(lower.as_str()) {
        return Err(Error::TableAlreadyExists(lower));
    }
    let ghost before = state.schemas@;
    state.schemas.insert(lower.clone(), schema.duplicate());
    assert(state.schemas@.dom() =~= before.dom().insert(lower@));
    assert(state.schemas@.remove(lower@) =~= before);
    state.stores.insert(lower, Store { schema, indexes });
    *schema_epoch = (*schema_epoch).wrapping_add(1);
    Ok(())
}

/// Gives up the reservation of an unpublished table.
pub fn drop_table(state: &mut CatalogState, name: &str) -> (r: Result<(), Error>)
    requires
        old(state).wf(),
    ensures
        final(state).wf(),
        refusal(r) == if old(state).pending@.dom().contains(lowercase_text(name@)) {
            None
        } else {
            Some(ErrorView::TableNotFound(lowercase_text(name@)))
        },
        final(state).pending@ == old(state).pending@.remove(lowercase_text(name@)),
        final(state).schemas == old(state).schemas,
        final(state).stores == old(state).stores,
        final(state).views == old(state).views,
{
    let lower: String = to_lowercase(name);
    match state.pending.remove(lower.as_str()) {
        Some(_) => Ok(()),
        None => Err(Error::TableNotFound(lower)),
    }
}

/// Renaming goes through the staged requests alone.
pub fn rename_table_refused(old_name: &str, new_name: &str) -> (e: Error)
    ensures
        e@ == ErrorView::NotSupported(
            "RENAME TABLE '"@ + old_name@ + "' TO '"@ + new_name@
                + "' is not supported inside an explicit transaction"@,
        ),
{
    Error::NotSupported(
        String::from_str("RENAME TABLE '").concat(old_name).concat("' TO '").concat(
            new_name,
        ).concat("' is not supported inside an explicit transaction"),
    )
}

/// The names of the published tables.
pub fn list_tables(schemas: &NameMap<Schema>) -> (names: Vec<String>)
    requires
        schemas.wf(),
    ensures
        names@.len() == schemas.listed().len(),
        forall|i: int| 0 <= i < names@.len() ==> (#[trigger] names@[i])@ == schemas.listed()[i].0@,
{
    let mut names: Vec<String> = Vec::new();
    let mut i: usize = 0;
    while i < schemas.len()
        invariant
            0 <= i <= schemas.listed().len(),
            names@.len() == i,
            forall|k: int|
                0 <= k < i ==> (#[trigger] names@[k])@ == schemas.listed()[k].0@,
        decreases schemas.listed().len() - i,
    {
        names.push(schemas.name_at(i).clone());
        i = i + 1;
    }
    names
}

/// Whether a staged schema belongs to a table.
pub open spec fn stages_for(changes: Seq<PendingSchemaChange>, name: Seq<char>, i: int) -> bool {
    0 <= i < changes.len() && same_ignoring_ascii_case(changes[i].table_name@, name)
}

/// After a rollback to a savepoint, the last remaining schema of a table is
/// its overlay; a table without one loses its overlay.
pub fn reset_schema_changes(changes: &Vec<PendingSchemaChange>, table_name: &str) -> (r: Option<
    usize,
>)
    ensures
        match r {
            Some(i) => stages_for(changes@, table_name@, i as int) && forall|k: int|
                k > i ==> !#[trigger] stages_for(changes@, table_name@, k),
            None => forall|k: int| !#[trigger] stages_for(changes@, table_name@, k),
        },
{
    let mut i: usize = changes.len();
    while i > 0
        invariant
            0 <= i <= changes@.len(),
            forall|k: int| k >= i ==> !#[trigger] stages_for(changes@, table_name@, k),
        decreases i,
    {
        i = i - 1;
        if eq_ignore_ascii_case(changes[i].table_name.as_str(), table_name) {
            return Some(i);
        }
    }
    None
}

/// The indexes that stay disabled on a table.
pub open spec fn disabled_indexes(drops: Seq<PendingIndexDrop>, name: Seq<char>, n: int) -> Seq<
    Seq<char>,
>
    decreases n,
{
    if n <= 0 {
        Seq::empty()
    } else if same_ignoring_ascii_case(drops[n - 1].table_name@, name) {
        disabled_indexes(drops, name, n - 1).push(drops[n - 1].index_name@)
    } else {
        disabled_indexes(drops, name, n - 1)
    }
}

/// The indexes that stay disabled on a table.
pub fn reset_index_drops(drops: &Vec<PendingIndexDrop>, table_name: &str) -> (out: Vec<String>)
    ensures
        views(out@) == disabled_indexes(drops@, table_name@, drops@.len() as int),
{
    let mut out: Vec<String> = Vec::new();
    assert(views(out@) =~= disabled_indexes(drops@, table_name@, 0));
    let mut i: usize = 0;
    while i < drops.len()
        invariant
            0 <= i <= drops@.len(),
            views(out@) == disabled_indexes(drops@, table_name@, i as int),
        decreases drops@.len() - i,
    {
        if eq_ignore_ascii_case(drops[i].table_name.as_str(), table_name) {
            let ghost before = out@;
            let name: String = drops[i].index_name.clone();
            out.push(name);
            assert(views(out@) =~= views(before).push(name@));
        }
        i = i + 1;
    }
    out
}

/// A touched table with indexes built by the transaction.
#[derive(Debug)]
pub struct PreparedIndexes {
    pub table_name: String,
    pub index_names: Vec<String>,
    pub index_types: Vec<IndexType>,
    /// The table has cold segments.
    pub has_segments: bool,
}

pub open spec fn prepared_names(tables: Seq<PreparedIndexes>) -> Seq<Seq<char>> {
    tables.map_values(|t: PreparedIndexes| t.table_name@)
}

/// How far activation got.
#[derive(Debug)]
pub struct IndexActivation {
    /// Positions in the order they are tried.
    pub order: Vec<usize>,
    /// Positions to be deactivated again, in that order.
    pub deactivate: Vec<usize>,
    pub error: Option<Error>,
}

/// Whether activation fails first at this turn.
pub open spec fn fails_first(
    outcomes: Seq<Result<(), String>>,
    order: Seq<usize>,
    i: int,
) -> bool {
    &&& 0 <= i < order.len()
    &&& outcomes[order[i] as int] is Err
    &&& forall|k: int| 0 <= k < i ==> outcomes[#[trigger] order[k] as int] is Ok
}

pub open spec fn activation_error(table: Seq<char>, text: Seq<char>) -> ErrorView {
    ErrorView::Internal(
        "failed to activate prepared indexes for table '"@ + table + "': "@ + text,
    )
}

/// Activates prepared indexes table by table, in the order of names. After a
/// failure those already active are taken back, last first.
pub fn activate_transactional_indexes(
    tables: &Vec<PreparedIndexes>,
    outcomes: &Vec<Result<(), String>>,
) -> (r: IndexActivation)
    requires
        all_distinct(prepared_names(tables@)),
        outcomes@.len() == tables@.len(),
    ensures
        is_name_order(prepared_names(tables@), r.order@),
        match r.error {
            Some(e) => exists|i: int|
                {
                    &&& #[trigger] fails_first(outcomes@, r.order@, i)
                    &&& e@ == activation_error(
                        tables@[r.order@[i] as int].table_name@,
                        outcomes@[r.order@[i] as int]->Err_0@,
                    )
                    &&& r.deactivate@ == r.order@.take(i).reverse()
                },
            None => r.deactivate@.len() == 0 && forall|k: int|
                0 <= k < r.order@.len() ==> outcomes@[#[trigger] r.order@[k] as int] is Ok,
        },
{
    let mut names: Vec<String> = Vec::new();
    let mut n: usize = 0;
    while n < tables.len()
        invariant
            0 <= n <= tables@.len(),
            names@.len() == n,
            forall|k: int| 0 <= k < n ==> (#[trigger] names@[k])@ == tables@[k].table_name@,
        decreases tables@.len() - n,
    {
        names.push(tables[n].table_name.clone());
        n = n + 1;
    }
    assert(string_views(names@) =~= prepared_names(tables@));
    let order: Vec<usize> = order_by_name(&names);
    let mut i: usize = 0;
    while i < order.len()
        invariant
            0 <= i <= order@.len(),
            outcomes@.len() == tables@.len(),
            is_name_order(prepared_names(tables@), order@),
            forall|k: int| 0 <= k < i ==> outcomes@[#[trigger] order@[k] as int] is Ok,
        decreases order@.len() - i,
    {
        let at: usize = order[i];
        assert(at < prepared_names(tables@).len());
        if let Err(text) = &outcomes[at] {
            let mut deactivate: Vec<usize> = Vec::new();
            let mut k: usize = i;
            while k > 0
                invariant
                    0 <= k <= i <= order@.len(),
                    deactivate@.len() == i - k,
                    forall|m: int|
                        0 <= m < deactivate@.len() ==> #[trigger] deactivate@[m] == order@[i - 1
                            - m],
                decreases k,
            {
                k = k - 1;
                deactivate.push(order[k]);
            }
            assert(deactivate@ =~= order@.take(i as int).reverse());
            assert(fails_first(outcomes@, order@, i as int));
            let error: Error = Error::Internal {
                message: String::from_str(
                    "failed to activate prepared indexes for table '",
                ).concat(tables[at].table_name.as_str()).concat("': ").concat(text.as_str()),
            };
            return IndexActivation { order, deactivate, error: Some(error) };
        }
        i = i + 1;
    }
    IndexActivation { order, deactivate: Vec::new(), error: None }
}

/// Whether an activated index has to be marked as covering cold segments.
pub fn marks_cold_populated(table: &PreparedIndexes, index_type: IndexType) -> (r: bool)
    ensures
        r == (table.has_segments && index_type != IndexType::PrimaryKey),
{
    table.has_segments && index_type != IndexType::PrimaryKey
}

/// The schema that is a transaction's own: its overlay, then that of the
/// table it created.
pub open spec fn private_schema(
    state: CatalogState,
    overlay: Option<Schema>,
    txn_id: i64,
    name: Seq<char>,
) -> Option<SchemaView> {
    let lower = lowercase_text(name);
    if overlay is Some {
        Some(overlay->Some_0@)
    } else if owns_pending(state.pending@, txn_id, lower) {
        Some(state.pending@[lower].schema@)
    } else {
        None
    }
}

/// A published schema, as long as the engine is open.
pub open spec fn published_schema(state: CatalogState, is_open: bool, name: Seq<char>) -> Result<
    SchemaView,
    ErrorView,
> {
    let lower = lowercase_text(name);
    if !is_open {
        Err(ErrorView::EngineNotOpen)
    } else if state.schemas@.dom().contains(lower) {
        Ok(state.schemas@[lower]@)
    } else {
        Err(ErrorView::TableNotFound(lower))
    }
}

/// A published schema, as long as the engine is open.
pub fn get_table_schema(state: &CatalogState, is_open: bool, table_name: &str) -> (r: Result<
    Schema,
    Error,
>)
    requires
        state.wf(),
    ensures
        outcome(r) == published_schema(*state, is_open, table_name@),
{
    if !is_open {
        return Err(Error::EngineNotOpen);
    }
    let lower: String = match to_lowercase_cow(table_name) {
        Cow::Borrowed(text) => String::from_str(text),
        Cow::Owned(text) => text,
    };
    match state.schemas.get(lower.as_str()) {
        Some(schema) => Ok(schema.duplicate()),
        None => Err(Error::TableNotFound(lower)),
    }
}

/// The schema a transaction sees for a table. `overlay` is the schema that
/// it staged for the table.
pub fn get_table_schema_for_txn(
    state: &CatalogState,
    is_open: bool,
    overlay: Option<Schema>,
    txn_id: i64,
    table_name: &str,
) -> (r: Result<Schema, Error>)
    requires
        state.wf(),
    ensures
        outcome(r) == match private_schema(*state, overlay, txn_id, table_name@) {
            Some(schema) => Ok(schema),
            None => published_schema(*state, is_open, table_name@),
        },
{
    let lower: String = match to_lowercase_cow(table_name) {
        Cow::Borrowed(text) => String::from_str(text),
        Cow::Owned(text) => text,
    };
    if let Some(schema) = overlay {
        return Ok(schema);
    }
    if let Some(table) = state.pending.get(lower.as_str()) {
        if table.owner_txn_id == txn_id {
            return Ok(table.schema.duplicate());
        }
    }
    get_table_schema(state, is_open, table_name)
}

/// A table held back by one transaction is invisible to every other one,
/// unless a table of that name is published.
pub proof fn law_unpublished_table_is_private(
    state: CatalogState,
    owner: i64,
    other: i64,
    name: Seq<char>,
)
    requires
        owns_pending(state.pending@, owner, name),
        other != owner,
        !state.stores@.dom().contains(name),
    ensures
        store_source(state, owner, name) == Some(StoreSource::Unpublished),
        store_source(state, other, name) is None,
{
}

} // verus!
