//! Publication of a committed transaction's catalog changes as a whole.
use crate::ddl::final_catalog::with_changes;
use crate::ddl::final_catalog::Catalog;
use crate::ddl::index_build::can_defer;
use crate::ddl::index_build::can_defer_cold_index_backfill;
use crate::ddl::install::cold_after_drops;
use crate::ddl::install::cold_after_renames;
use crate::ddl::install::cold_without_indexes;
use crate::ddl::install::drops_alone;
use crate::ddl::install::index_drops_applicable;
use crate::ddl::install::index_renames_applicable;
use crate::ddl::install::install_bound_catalog;
use crate::ddl::install::installed_catalog;
use crate::ddl::install::publish_drops;
use crate::ddl::install::publish_index_drops;
use crate::ddl::install::publish_index_renames;
use crate::ddl::install::publish_table_renames;
use crate::ddl::install::renameable;
use crate::ddl::install::schemas_after_drops;
use crate::ddl::install::schemas_after_renames;
use crate::ddl::install::stores_after_drops;
use crate::ddl::install::stores_after_renames;
use crate::ddl::install::stores_without_indexes;
use crate::ddl::install::view_contents;
use crate::ddl::install::with_index_renames;
use crate::ddl::install::InstalledCatalog;
use crate::ddl::plan::request_refusal;
use crate::ddl::prepare::change_check;
use crate::ddl::prepare::change_name;
use crate::ddl::prepare::drop_check;
use crate::ddl::prepare::index_drop_check;
use crate::ddl::prepare::index_rename_check;
use crate::ddl::prepare::is_final_order;
use crate::ddl::prepare::is_last_change;
use crate::ddl::prepare::reservation_check;
use crate::ddl::prepare::table_rename_refusal;
use crate::ddl::publish::all_changeable;
use crate::ddl::publish::changeable;
use crate::ddl::publish::cold_contents;
use crate::ddl::publish::cold_wf;
use crate::ddl::publish::creatable;
use crate::ddl::publish::lemma_final_schemas;
use crate::ddl::publish::owners_of;
use crate::ddl::publish::pending_without_created;
use crate::ddl::publish::publish_created;
use crate::ddl::publish::publish_schemas;
use crate::ddl::publish::publish_transitions;
use crate::ddl::publish::schemas_with_created;
use crate::ddl::publish::store_contents;
use crate::ddl::publish::stores_after_transitions;
use crate::ddl::publish::stores_with_created;
use crate::ddl::publish::with_final_schemas;
use crate::ddl::publish::ColdMap;
use crate::ddl::publish::ColdOwner;
use crate::ddl::publish::SchemaOwners;
use crate::ddl::publish::StoreMap;
use crate::ddl::request::creates;
use crate::ddl::request::creates_at;
use crate::ddl::request::drops;
use crate::ddl::request::drops_at;
use crate::ddl::request::schema_contents;
use crate::ddl::request::BoundCatalog;
use crate::ddl::request::CatalogState;
use crate::ddl::request::CreatedTable;
use crate::ddl::request::DdlRequest;
use crate::ddl::request::PendingIndexDefinition;
use crate::ddl::request::PendingSchemaChange;
use crate::ddl::request::PendingTable;
use crate::ddl::request::PendingTableRename;
use crate::error::first_refusal;
use crate::error::lemma_no_refusal;
use crate::error::refusal;
use crate::error::Error;
use crate::error::ErrorView;
use crate::names::NameMap;
use crate::schema::IndexInfo;
use crate::text::lowercase_text;
use crate::text::same_text;
use crate::text::signed_decimal;
use crate::text::signed_decimal_digits;
use crate::text::to_lowercase;
use crate::view::ViewContent;
use vstd::prelude::*;
use vstd::string::StringExecFns;

verus! {

/// Everything that publication moves.
#[derive(Debug)]
pub struct RuntimeCatalog {
    pub state: CatalogState,
    pub cold: NameMap<ColdOwner>,
    pub schema_epoch: u64,
}

/// Content of what publication moves.
#[verifier::ext_equal]
pub struct RuntimeContents {
    pub schemas: Catalog,
    pub stores: StoreMap,
    pub pending: Map<Seq<char>, PendingTable>,
    pub views: Map<Seq<char>, ViewContent>,
    pub cold: ColdMap,
    pub schema_epoch: u64,
}

impl RuntimeCatalog {
    pub open spec fn wf(self) -> bool {
        &&& self.state.wf()
        &&& self.cold.wf()
        &&& cold_wf(self.cold@)
    }
}

impl View for RuntimeCatalog {
    type V = RuntimeContents;

    open spec fn view(&self) -> RuntimeContents {
        RuntimeContents {
            schemas: schema_contents(self.state.schemas@),
            stores: store_contents(self.state.stores@),
            pending: self.state.pending@,
            views: view_contents(self.state.views@),
            cold: cold_contents(self.cold@),
            schema_epoch: self.schema_epoch,
        }
    }
}

/// How the owners of rows, indexes and the durable catalog answered.
#[derive(Debug)]
pub struct PublishOutcomes {
    /// One answer per staged schema, which counts where values are moved: the
    /// index descriptions of the table afterwards.
    pub transitions: Vec<Result<Vec<IndexInfo>, String>>,
    /// One answer per final schema; it counts where a key is registered.
    pub key_indexes: Vec<Result<(), Error>>,
    /// One answer per renamed index.
    pub index_renames: Vec<Result<(), String>>,
    /// What publishing the typed mutation gave.
    pub catalog: Result<(), CatalogFault>,
}

/// The step at which publishing the typed mutation failed, with the text of
/// the fault.
#[derive(Debug)]
pub enum CatalogFault {
    /// The current generation could not be pinned.
    Pin(String),
    /// There is no generation behind the current one.
    Overflow,
    /// The description of the next generation was refused.
    Metadata(String),
    /// The mutation does not lead to a sound generation.
    Successor(String),
    /// The next generation is not in use: the commit needs recovery.
    Runtime(String),
}

pub open spec fn catalog_error(fault: CatalogFault) -> ErrorView {
    match fault {
        CatalogFault::Pin(text) => ErrorView::Internal("catalog pin failed: "@ + text@),
        CatalogFault::Overflow => ErrorView::Internal(
            "catalog generation overflow during publication"@,
        ),
        CatalogFault::Metadata(text) => ErrorView::Internal(
            "catalog metadata rejected: "@ + text@,
        ),
        CatalogFault::Successor(text) => ErrorView::Internal(
            "catalog successor rejected: "@ + text@,
        ),
        CatalogFault::Runtime(text) => ErrorView::WalDurabilityUncertain(
            "catalog runtime publication requires recovery: "@ + text@,
        ),
    }
}

/// Reports a step of catalog publication that failed.
pub fn catalog_publication_failed(fault: &CatalogFault) -> (e: Error)
    ensures
        e@ == catalog_error(*fault),
{
    match fault {
        CatalogFault::Pin(text) => Error::Internal {
            message: String::from_str("catalog pin failed: ").concat(text.as_str()),
        },
        CatalogFault::Overflow => Error::internal("catalog generation overflow during publication"),
        CatalogFault::Metadata(text) => Error::Internal {
            message: String::from_str("catalog metadata rejected: ").concat(text.as_str()),
        },
        CatalogFault::Successor(text) => Error::Internal {
            message: String::from_str("catalog successor rejected: ").concat(text.as_str()),
        },
        CatalogFault::Runtime(text) => Error::WalDurabilityUncertain {
            detail: String::from_str("catalog runtime publication requires recovery: ").concat(
                text.as_str(),
            ),
        },
    }
}

/// Whether there is nothing to publish.
pub open spec fn nothing_to_publish(request: DdlRequest) -> bool {
    &&& request.created_tables@.len() == 0
    &&& request.dropped_tables@.len() == 0
    &&& request.index_drops@.len() == 0
    &&& request.index_renames@.len() == 0
    &&& request.table_renames@.len() == 0
    &&& request.schema_changes@.len() == 0
    &&& !request.has_catalog_mutation
}

fn has_nothing_to_publish(request: &DdlRequest) -> (r: bool)
    ensures
        r == nothing_to_publish(*request),
{
    request.created_tables.len() == 0 && request.dropped_tables.len() == 0
        && request.index_drops.len() == 0 && request.index_renames.len() == 0
        && request.table_renames.len() == 0 && request.schema_changes.len() == 0
        && !request.has_catalog_mutation
}

/// After created tables and final schemas took effect, up to a fault.
pub open spec fn after_schemas(
    before: RuntimeContents,
    request: DdlRequest,
    order: Seq<usize>,
    outcomes: PublishOutcomes,
) -> (RuntimeContents, Option<ErrorView>) {
    let created = RuntimeContents {
        schemas: schemas_with_created(
            before.schemas,
            before.pending,
            request.created_tables@,
            0,
        ),
        stores: stores_with_created(before.stores, before.pending, request.created_tables@, 0),
        pending: pending_without_created(before.pending, request.created_tables@, 0),
        ..before
    };
    let (stores, fault) = stores_after_transitions(
        request.txn_id,
        created.stores,
        request.schema_changes@,
        outcomes.transitions@,
        0,
    );
    match fault {
        Some(e) => (RuntimeContents { stores, ..created }, Some(e)),
        None => {
            let (owners, fault) = with_final_schemas(
                SchemaOwners { schemas: created.schemas, stores, cold: created.cold },
                request.schema_changes@,
                order,
                outcomes.key_indexes@,
                before.schema_epoch,
                0,
            );
            (
                RuntimeContents {
                    schemas: owners.schemas,
                    stores: owners.stores,
                    cold: owners.cold,
                    ..created
                },
                fault,
            )
        },
    }
}

/// After indexes and tables were dropped and renamed, up to a fault.
pub open spec fn after_moves(
    before: RuntimeContents,
    request: DdlRequest,
    outcomes: PublishOutcomes,
) -> (RuntimeContents, Option<ErrorView>) {
    let (stores, cold, fault) = with_index_renames(
        request.txn_id,
        stores_without_indexes(
            before.stores,
            request.dropped_tables@,
            request.index_drops@,
            0,
        ),
        cold_without_indexes(before.cold, request.dropped_tables@, request.index_drops@, 0),
        request.index_renames@,
        outcomes.index_renames@,
        0,
    );
    match fault {
        Some(e) => (RuntimeContents { stores, cold, ..before }, Some(e)),
        None => {
            let schemas = schemas_after_renames(before.schemas, request.table_renames@, 0);
            (
                RuntimeContents {
                    schemas: schemas_after_drops(schemas, request.dropped_tables@, 0),
                    stores: stores_after_drops(
                        stores_after_renames(stores, request.table_renames@, 0),
                        schemas,
                        request.dropped_tables@,
                        0,
                    ),
                    cold: cold_after_drops(
                        cold_after_renames(cold, request.table_renames@, 0),
                        request.dropped_tables@,
                        0,
                    ),
                    ..before
                },
                None,
            )
        },
    }
}

/// After the typed catalog took over, where there is one, up to a fault.
pub open spec fn after_install(
    before: RuntimeContents,
    request: DdlRequest,
    prepared: Option<BoundCatalog>,
    outcomes: PublishOutcomes,
) -> (RuntimeContents, Option<ErrorView>) {
    if !request.has_catalog_mutation {
        (before, None)
    } else {
        match prepared {
            None => (
                before,
                Some(ErrorView::Internal("catalog publication was not prepared before commit"@)),
            ),
            Some(bound) => match outcomes.catalog {
                Err(fault) => (before, Some(catalog_error(fault))),
                Ok(_) => {
                    let (installed, fault) = installed_catalog(
                        InstalledCatalog {
                            stores: before.stores,
                            schemas: before.schemas,
                            views: before.views,
                        },
                        bound,
                    );
                    (
                        RuntimeContents {
                            schemas: installed.schemas,
                            stores: installed.stores,
                            views: installed.views,
                            ..before
                        },
                        fault,
                    )
                },
            },
        }
    }
}

/// What publishing a committed request leaves behind, and what ended it early.
pub open spec fn published_ddl(
    before: RuntimeContents,
    request: DdlRequest,
    order: Seq<usize>,
    prepared: Option<BoundCatalog>,
    outcomes: PublishOutcomes,
) -> (RuntimeContents, Option<ErrorView>) {
    if nothing_to_publish(request) {
        (before, None)
    } else {
        let (changed, fault) = after_schemas(before, request, order, outcomes);
        if fault is Some {
            (changed, fault)
        } else {
            let (moved, fault) = after_moves(changed, request, outcomes);
            if fault is Some {
                (moved, fault)
            } else {
                after_install(moved, request, prepared, outcomes)
            }
        }
    }
}

/// What preparation proved of a request.
pub open spec fn publishable(
    before: RuntimeContents,
    request: DdlRequest,
    order: Seq<usize>,
) -> bool {
    let created_stores = stores_with_created(
        before.stores,
        before.pending,
        request.created_tables@,
        0,
    ).dom();
    let schemas = with_changes(
        schemas_with_created(before.schemas, before.pending, request.created_tables@, 0),
        request.schema_changes@,
        order,
        0,
    ).dom();
    &&& creatable(before.pending.dom(), request.created_tables@, 0)
    &&& all_changeable(created_stores, request.schema_changes@)
    &&& changeable(created_stores, request.schema_changes@, order)
    &&& index_drops_applicable(created_stores, request.dropped_tables@, request.index_drops@)
    &&& index_renames_applicable(created_stores, request.index_renames@)
    &&& renameable(schemas, created_stores, request.table_renames@, 0)
}

/// Publishes a committed request. Preparation has excluded ordinary failures;
/// what can still go wrong asks for recovery. The catalog epoch stands until
/// publication is complete.
pub fn publish_transactional_ddl(
    runtime: &mut RuntimeCatalog,
    request: &DdlRequest,
    order: &Vec<usize>,
    prepared: Option<BoundCatalog>,
    outcomes: &PublishOutcomes,
) -> (r: Result<(), Error>)
    requires
        old(runtime).wf(),
        is_final_order(request.schema_changes@, order@),
        outcomes.transitions@.len() == request.schema_changes@.len(),
        outcomes.key_indexes@.len() == order@.len(),
        outcomes.index_renames@.len() == request.index_renames@.len(),
        publishable(old(runtime)@, *request, order@),
    ensures
        final(runtime).wf(),
        final(runtime).schema_epoch == old(runtime).schema_epoch,
        published_ddl(old(runtime)@, *request, order@, prepared, *outcomes) == (
            final(runtime)@,
            refusal(r),
        ),
{
    if has_nothing_to_publish(request) {
        return Ok(());
    }
    let ghost before = runtime@;
    publish_created(
        &mut runtime.state.schemas,
        &mut runtime.state.stores,
        &mut runtime.state.pending,
        &request.created_tables,
    );
    assert(store_contents(runtime.state.stores@).dom() =~= runtime.state.stores@.dom());
    match publish_transitions(
        request.txn_id,
        &mut runtime.state.stores,
        &request.schema_changes,
        &outcomes.transitions,
    ) {
        Ok(_) => {},
        Err(error) => {
            assert(runtime@ =~= after_schemas(before, *request, order@, *outcomes).0);
            return Err(error);
        },
    }
    proof {
        lemma_final_schemas(
            owners_of(runtime.state.schemas, runtime.state.stores, runtime.cold),
            request.schema_changes@,
            order@,
            outcomes.key_indexes@,
            runtime.schema_epoch,
            0,
        );
        assert(store_contents(runtime.state.stores@).dom() =~= runtime.state.stores@.dom());
    }
    let r: Result<(), Error> = publish_schemas(
        &mut runtime.state.schemas,
        &mut runtime.state.stores,
        &mut runtime.cold,
        &request.schema_changes,
        order,
        &outcomes.key_indexes,
        runtime.schema_epoch,
    );
    assert(runtime@ =~= after_schemas(before, *request, order@, *outcomes).0);
    if r.is_err() {
        return r;
    }
    assert(store_contents(runtime.state.stores@).dom() =~= runtime.state.stores@.dom());
    assert(schema_contents(runtime.state.schemas@).dom() =~= runtime.state.schemas@.dom());
    let ghost changed = runtime@;
    publish_index_drops(
        &mut runtime.state.stores,
        &mut runtime.cold,
        &request.dropped_tables,
        &request.index_drops,
    );
    match publish_index_renames(
        request.txn_id,
        &mut runtime.state.stores,
        &mut runtime.cold,
        &request.index_renames,
        &outcomes.index_renames,
    ) {
        Ok(_) => {},
        Err(error) => {
            assert(runtime@ =~= after_moves(changed, *request, *outcomes).0);
            return Err(error);
        },
    }
    publish_table_renames(
        &mut runtime.state.schemas,
        &mut runtime.state.stores,
        &mut runtime.cold,
        &request.table_renames,
    );
    publish_drops(
        &mut runtime.state.schemas,
        &mut runtime.state.stores,
        &mut runtime.cold,
        &request.dropped_tables,
    );
    assert(runtime@ =~= after_moves(changed, *request, *outcomes).0);
    let ghost moved = runtime@;
    if request.has_catalog_mutation {
        let bound: BoundCatalog = match prepared {
            Some(bound) => bound,
            None => {
                return Err(
                    Error::internal("catalog publication was not prepared before commit"),
                );
            },
        };
        if let Err(fault) = &outcomes.catalog {
            return Err(catalog_publication_failed(fault));
        }
        let r: Result<(), Error> = install_bound_catalog(
            &mut runtime.state.schemas,
            &mut runtime.state.stores,
            &mut runtime.state.views,
            &bound,
        );
        assert(runtime@ =~= after_install(moved, *request, prepared, *outcomes).0);
        return r;
    }
    Ok(())
}

/// Identity of the next catalog generation.
#[derive(Debug, Clone, Copy, PartialEq, Eq, Structural)]
pub struct NextGeneration {
    pub generation: u64,
    pub snapshot_lsn: u64,
}

/// The generation behind the current one. Its log position never falls back.
pub fn next_catalog_generation(generation: u64, snapshot_lsn: u64, commit_lsn: u64) -> (r: Result<
    NextGeneration,
    Error,
>)
    ensures
        match r {
            Ok(next) => next.generation == generation + 1 && next.snapshot_lsn == if commit_lsn
                > snapshot_lsn {
                commit_lsn
            } else {
                snapshot_lsn
            },
            Err(e) => e@ == ErrorView::Internal(
                "catalog generation overflow during publication"@,
            ),
        },
        r is Err <==> generation == u64::MAX,
{
    match generation.checked_add(1) {
        None => Err(Error::internal("catalog generation overflow during publication")),
        Some(next) => Ok(
            NextGeneration {
                generation: next,
                snapshot_lsn: crate::num::max_64(commit_lsn, snapshot_lsn),
            },
        ),
    }
}

pub open spec fn is_named(names: Seq<String>, name: Seq<char>) -> bool {
    exists|i: int| 0 <= i < names.len() && #[trigger] names[i]@ == name
}

/// Whether a table has cold segments.
pub open spec fn has_cold_segments(cold: Map<Seq<char>, ColdOwner>, name: Seq<char>) -> bool {
    cold.dom().contains(name) && cold[name].has_segments
}

/// Whether an index counts on cold coverage that nobody has published.
pub open spec fn needs_fallback(
    definition: PendingIndexDefinition,
    has_physical_generation: bool,
    runtime: RuntimeCatalog,
    published: Seq<String>,
) -> bool {
    let lower = lowercase_text(definition.table_name@);
    can_defer(
        definition,
        has_physical_generation,
        has_cold_segments(runtime.cold@, lower),
        runtime.state.schemas@,
    ) && !is_named(published, lower)
}

fn lists_name(names: &Vec<String>, name: &str) -> (r: bool)
    ensures
        r == is_named(names@, name@),
{
    let mut i: usize = 0;
    while i < names.len()
        invariant
            0 <= i <= names@.len(),
            forall|k: int| 0 <= k < i ==> (#[trigger] names@[k])@ != name@,
        decreases names@.len() - i,
    {
        if same_text(names[i].as_str(), name) {
            assert(names@[i as int]@ == name@);
            return true;
        }
        i = i + 1;
    }
    false
}

/// Positions of the indexes whose cold coverage the runtime has to complete,
/// in order. `published` names the tables whose accelerators were published.
/// Without a typed mutation there are none.
pub fn indexes_needing_fallback(
    request: &DdlRequest,
    has_physical_generation: bool,
    runtime: &RuntimeCatalog,
    published: &Vec<String>,
) -> (out: Vec<usize>)
    requires
        runtime.wf(),
    ensures
        forall|a: int, b: int|
            0 <= a < b < out@.len() ==> (#[trigger] out@[a]) < (#[trigger] out@[b]),
        forall|a: int| 0 <= a < out@.len() ==> (#[trigger] out@[a]) < request.indexes@.len(),
        forall|i: int|
            0 <= i < request.indexes@.len() ==> (request.has_catalog_mutation && needs_fallback(
                #[trigger] request.indexes@[i],
                has_physical_generation,
                *runtime,
                published@,
            ) <==> exists|a: int| 0 <= a < out@.len() && #[trigger] out@[a] == i),
{
    let definitions: &Vec<PendingIndexDefinition> = &request.indexes;
    let mut out: Vec<usize> = Vec::new();
    if !request.has_catalog_mutation {
        return out;
    }
    let mut i: usize = 0;
    while i < definitions.len()
        invariant
            0 <= i <= definitions@.len(),
            runtime.wf(),
            forall|a: int, b: int|
                0 <= a < b < out@.len() ==> (#[trigger] out@[a]) < (#[trigger] out@[b]),
            forall|a: int| 0 <= a < out@.len() ==> (#[trigger] out@[a]) < i,
            forall|k: int|
                0 <= k < i ==> (needs_fallback(
                    #[trigger] definitions@[k],
                    has_physical_generation,
                    *runtime,
                    published@,
                ) <==> exists|a: int| 0 <= a < out@.len() && #[trigger] out@[a] == k),
        decreases definitions@.len() - i,
    {
        let lower: String = to_lowercase(definitions[i].table_name.as_str());
        let has_segments: bool = match runtime.cold.get(lower.as_str()) {
            Some(owner) => owner.has_segments,
            None => false,
        };
        let deferred: bool = can_defer_cold_index_backfill(
            &definitions[i],
            has_physical_generation,
            has_segments,
            &runtime.state.schemas,
        );
        let ghost before = out@;
        let needed: bool = deferred && !lists_name(published, lower.as_str());
        if needed {
            out.push(i);
        }
        proof {
            assert forall|k: int| 0 <= k < i + 1 implies (needs_fallback(
                #[trigger] definitions@[k],
                has_physical_generation,
                *runtime,
                published@,
            ) <==> exists|a: int| 0 <= a < out@.len() && #[trigger] out@[a] == k) by {
                if k == i {
                    if needed {
                        assert(out@[before.len() as int] == k);
                    }
                } else {
                    if exists|a: int| 0 <= a < before.len() && #[trigger] before[a] == k {
                        let a = choose|a: int| 0 <= a < before.len() && #[trigger] before[a] == k;
                        assert(out@[a] == k);
                    }
                    if exists|a: int| 0 <= a < out@.len() && #[trigger] out@[a] == k {
                        let a = choose|a: int| 0 <= a < out@.len() && #[trigger] out@[a] == k;
                        assert(a < before.len());
                        assert(before[a] == k);
                    }
                }
            }
        }
        i = i + 1;
    }
    out
}

/// What covering an index at run time came to.
#[derive(Debug)]
pub enum IndexCompletion {
    Covered,
    /// The text of the fault.
    Failed(String),
    /// The table could not be had; nothing after it is tried.
    NoTable(Error),
}

/// The table that could not be had.
pub open spec fn lost_tables(completions: Seq<IndexCompletion>) -> spec_fn(int) -> Option<
    ErrorView,
> {
    |i: int|
        match completions[i] {
            IndexCompletion::NoTable(e) => Some(e@),
            _ => None,
        }
}

pub open spec fn failure_line(definition: PendingIndexDefinition, text: Seq<char>) -> Seq<char> {
    definition.table_name@ + "."@ + definition.index_name@ + ": "@ + text
}

/// The failed completions of the first `n`, one behind the other.
pub open spec fn failure_lines(
    definitions: Seq<PendingIndexDefinition>,
    needed: Seq<usize>,
    completions: Seq<IndexCompletion>,
    n: int,
) -> Option<Seq<char>>
    decreases n,
{
    if n <= 0 {
        None
    } else {
        let before = failure_lines(definitions, needed, completions, n - 1);
        match completions[n - 1] {
            IndexCompletion::Failed(text) => {
                let line = failure_line(definitions[needed[n - 1] as int], text@);
                match before {
                    None => Some(line),
                    Some(lines) => Some(lines + "; "@ + line),
                }
            },
            _ => before,
        }
    }
}

pub open spec fn fallback_refusal(
    txn_id: i64,
    definitions: Seq<PendingIndexDefinition>,
    needed: Seq<usize>,
    completions: Seq<IndexCompletion>,
) -> Option<ErrorView> {
    match first_refusal(0, needed.len() as int, lost_tables(completions)) {
        Some(e) => Some(e),
        None => match failure_lines(definitions, needed, completions, needed.len() as int) {
            None => None,
            Some(lines) => Some(
                ErrorView::WalDurabilityUncertain(
                    "transaction "@ + signed_decimal_digits(txn_id as int)
                        + " committed CREATE INDEX but neither immutable nor runtime cold coverage completed for "@
                        + lines,
                ),
            ),
        },
    }
}

/// Ends publication: every needed completion has to have worked; then the
/// catalog epoch moves on. Where there was nothing to publish, it stays.
pub fn complete_publication(
    runtime: &mut RuntimeCatalog,
    request: &DdlRequest,
    needed: &Vec<usize>,
    completions: &Vec<IndexCompletion>,
) -> (r: Result<(), Error>)
    requires
        completions@.len() == needed@.len(),
        forall|a: int|
            0 <= a < needed@.len() ==> (#[trigger] needed@[a]) < request.indexes@.len(),
    ensures
        refusal(r) == if nothing_to_publish(*request) {
            None
        } else {
            fallback_refusal(request.txn_id, request.indexes@, needed@, completions@)
        },
        final(runtime).state == old(runtime).state,
        final(runtime).cold == old(runtime).cold,
        final(runtime).schema_epoch == if r is Ok && !nothing_to_publish(*request) {
            old(runtime).schema_epoch.wrapping_add(1)
        } else {
            old(runtime).schema_epoch
        },
{
    if has_nothing_to_publish(request) {
        return Ok(());
    }
    let definitions: &Vec<PendingIndexDefinition> = &request.indexes;
    let ghost n = needed@.len() as int;
    let ghost lost = lost_tables(completions@);
    let mut lines: String = String::new();
    let mut any: bool = false;
    let mut i: usize = 0;
    while i < needed.len()
        invariant
            0 <= i <= needed@.len(),
            *runtime == *old(runtime),
            completions@.len() == needed@.len() == n,
            definitions@ == request.indexes@,
            !nothing_to_publish(*request),
            lost == lost_tables(completions@),
            first_refusal(0, n, lost) == first_refusal(i as int, n, lost),
            forall|a: int|
                0 <= a < needed@.len() ==> (#[trigger] needed@[a]) < definitions@.len(),
            failure_lines(definitions@, needed@, completions@, i as int) == if any {
                Some(lines@)
            } else {
                None
            },
        decreases needed@.len() - i,
    {
        let ghost found = lost(i as int);
        match &completions[i] {
            IndexCompletion::Covered => {
                assert(found is None);
            },
            IndexCompletion::NoTable(error) => {
                assert(found is Some);
                return Err(error.duplicate());
            },
            IndexCompletion::Failed(text) => {
                assert(found is None);
                let definition: &PendingIndexDefinition = &definitions[needed[i]];
                let line: String = String::from_str(definition.table_name.as_str()).concat(
                    ".",
                ).concat(definition.index_name.as_str()).concat(": ").concat(text.as_str());
                if any {
                    lines = lines.concat("; ").concat(line.as_str());
                } else {
                    lines = line;
                    any = true;
                }
            },
        }
        i = i + 1;
    }
    if any {
        return Err(
            Error::WalDurabilityUncertain {
                detail: String::from_str("transaction ").concat(
                    signed_decimal(request.txn_id).as_str(),
                ).concat(
                    " committed CREATE INDEX but neither immutable nor runtime cold coverage completed for ",
                ).concat(lines.as_str()),
            },
        );
    }
    runtime.schema_epoch = runtime.schema_epoch.wrapping_add(1);
    Ok(())
}

/// Every published table has a store and a normalized name.
pub open spec fn consistent(state: CatalogState) -> bool {
    &&& state.schemas@.dom() == state.stores@.dom()
    &&& forall|name: Seq<char>| #[trigger]
        state.schemas@.dom().contains(name) ==> lowercase_text(name) == name
}

/// No two created tables have the same normalized name.
pub open spec fn created_once(created: Seq<CreatedTable>) -> bool {
    forall|i: int, j: int|
        0 <= i < j < created.len() ==> lowercase_text((#[trigger] created[i]).name@)
            != lowercase_text((#[trigger] created[j]).name@)
}

proof fn lemma_creatable(pending: Set<Seq<char>>, created: Seq<CreatedTable>, i: int)
    requires
        created_once(created),
        forall|k: int|
            i <= k < created.len() ==> pending.contains(
                lowercase_text((#[trigger] created[k]).name@),
            ),
        0 <= i,
    ensures
        creatable(pending, created, i),
    decreases created.len() - i,
{
    if i < created.len() {
        lemma_creatable(pending.remove(lowercase_text(created[i].name@)), created, i + 1);
    }
}

proof fn lemma_created_stores(
    stores: StoreMap,
    pending: Map<Seq<char>, PendingTable>,
    created: Seq<CreatedTable>,
    i: int,
)
    requires
        0 <= i,
    ensures
        stores.dom().subset_of(stores_with_created(stores, pending, created, i).dom()),
        forall|k: int|
            i <= k < created.len() ==> stores_with_created(stores, pending, created, i).dom().contains(
                lowercase_text((#[trigger] created[k]).name@),
            ),
    decreases created.len() - i,
{
    if i < created.len() {
        let lower = lowercase_text(created[i].name@);
        lemma_created_stores(
            stores.insert(lower, crate::ddl::publish::created_store(pending[lower])),
            pending.remove(lower),
            created,
            i + 1,
        );
    }
}

proof fn lemma_created_schemas(
    schemas: Catalog,
    pending: Map<Seq<char>, PendingTable>,
    created: Seq<CreatedTable>,
    i: int,
)
    requires
        0 <= i,
    ensures
        schemas.dom().subset_of(schemas_with_created(schemas, pending, created, i).dom()),
    decreases created.len() - i,
{
    if i < created.len() {
        let lower = lowercase_text(created[i].name@);
        lemma_created_schemas(
            schemas.insert(lower, pending[lower].schema@),
            pending.remove(lower),
            created,
            i + 1,
        );
    }
}

proof fn lemma_changed_schemas(
    schemas: Catalog,
    changes: Seq<PendingSchemaChange>,
    order: Seq<usize>,
    i: int,
)
    requires
        0 <= i,
    ensures
        schemas.dom().subset_of(with_changes(schemas, changes, order, i).dom()),
    decreases order.len() - i,
{
    if i < order.len() {
        let change = changes[order[i] as int];
        lemma_changed_schemas(
            schemas.insert(lowercase_text(change.table_name@), change.schema@),
            changes,
            order,
            i + 1,
        );
    }
}

proof fn lemma_renameable(
    names: Set<Seq<char>>,
    known: Set<Seq<char>>,
    schemas: Set<Seq<char>>,
    stores: Set<Seq<char>>,
    renames: Seq<PendingTableRename>,
    i: int,
)
    requires
        0 <= i,
        names.subset_of(schemas),
        names.subset_of(stores),
        table_rename_refusal(names, known, renames, i) is None,
    ensures
        renameable(schemas, stores, renames, i),
    decreases renames.len() - i,
{
    if i < renames.len() {
        let old_name = renames[i].old_name@;
        let new_name = renames[i].new_name@;
        lemma_renameable(
            names.remove(old_name).insert(new_name),
            known,
            schemas.remove(old_name).insert(new_name),
            stores.remove(old_name).insert(new_name),
            renames,
            i + 1,
        );
    }
}

/// The last staged schema of the table that one belongs to.
proof fn lemma_last_change(changes: Seq<PendingSchemaChange>, i: int) -> (last: int)
    requires
        0 <= i < changes.len(),
    ensures
        is_last_change(changes, last),
        change_name(changes, last) == change_name(changes, i),
    decreases changes.len() - i,
{
    if is_last_change(changes, i) {
        i
    } else {
        let k = choose|k: int|
            i < k < changes.len() && #[trigger] change_name(changes, k) == change_name(changes, i);
        lemma_last_change(changes, k)
    }
}

/// A request that preparation admitted can be published: every table and
/// reservation that publication counts on is there.
pub proof fn law_admitted_request_is_publishable(
    runtime: RuntimeCatalog,
    request: DdlRequest,
    bound: Option<Result<BoundCatalog, Error>>,
    order: Seq<usize>,
)
    requires
        consistent(runtime.state),
        created_once(request.created_tables@),
        is_final_order(request.schema_changes@, order),
        request_refusal(runtime.state, request, bound, order) is None,
    ensures
        publishable(runtime@, request, order),
{
    let state = runtime.state;
    let created = request.created_tables@;
    let changes = request.schema_changes@;
    let before = runtime@;
    let created_stores = stores_with_created(before.stores, before.pending, created, 0).dom();
    let created_schemas = schemas_with_created(before.schemas, before.pending, created, 0);
    lemma_no_refusal(0, created.len() as int, reservation_check(state, request));
    assert forall|k: int| 0 <= k < created.len() implies before.pending.dom().contains(
        lowercase_text((#[trigger] created[k]).name@),
    ) by {
        assert(reservation_check(state, request)(k) is None);
    }
    lemma_creatable(before.pending.dom(), created, 0);
    lemma_created_stores(before.stores, before.pending, created, 0);
    lemma_created_schemas(before.schemas, before.pending, created, 0);
    lemma_changed_schemas(created_schemas, changes, order, 0);
    assert(before.stores.dom() =~= state.stores@.dom());
    assert(before.schemas.dom() =~= state.schemas@.dom());
    lemma_no_refusal(
        0,
        order.len() as int,
        change_check(state.schemas@, created, changes, order),
    );
    assert forall|a: int| 0 <= a < order.len() implies created_stores.contains(
        lowercase_text(changes[#[trigger] order[a] as int].table_name@),
    ) by {
        assert(change_check(state.schemas@, created, changes, order)(a) is None);
        let change = changes[order[a] as int];
        let lower = lowercase_text(change.table_name@);
        if creates(created, lower) {
            let k = choose|k: int| #[trigger] creates_at(created, lower, k);
            assert(created_stores.contains(lowercase_text(created[k].name@)));
        } else {
            assert(state.schemas@.dom().contains(change.table_name@));
            assert(before.stores.dom().contains(change.table_name@));
        }
    }
    assert forall|i: int| 0 <= i < changes.len() implies created_stores.contains(
        lowercase_text((#[trigger] changes[i]).table_name@),
    ) by {
        let last = lemma_last_change(changes, i);
        let a = choose|a: int| 0 <= a < order.len() && #[trigger] order[a] == last;
        assert(created_stores.contains(lowercase_text(changes[order[a] as int].table_name@)));
    }
    let index_drops = request.index_drops@;
    let dropped = request.dropped_tables@;
    lemma_no_refusal(
        0,
        index_drops.len() as int,
        index_drop_check(state.stores@, dropped, index_drops),
    );
    lemma_no_refusal(0, dropped.len() as int, drop_check(state.schemas@, dropped));
    assert forall|i: int|
        0 <= i < index_drops.len() && drops_alone(
            dropped,
            #[trigger] index_drops[i],
        ) implies created_stores.contains(lowercase_text(index_drops[i].table_name@)) by {
        assert(index_drop_check(state.stores@, dropped, index_drops)(i) is None);
        let lower = lowercase_text(index_drops[i].table_name@);
        if drops(dropped, lower) {
            let k = choose|k: int| #[trigger] drops_at(dropped, lower, k);
            assert(drop_check(state.schemas@, dropped)(k) is None);
            assert(state.schemas@.dom().contains(dropped[k].name@));
        }
        assert(before.stores.dom().contains(lower));
    }
    let index_renames = request.index_renames@;
    lemma_no_refusal(
        0,
        index_renames.len() as int,
        index_rename_check(state.stores@, index_renames),
    );
    assert forall|i: int| 0 <= i < index_renames.len() implies created_stores.contains(
        lowercase_text((#[trigger] index_renames[i]).table_name@),
    ) by {
        assert(index_rename_check(state.stores@, index_renames)(i) is None);
        assert(before.stores.dom().contains(lowercase_text(index_renames[i].table_name@)));
    }
    lemma_renameable(
        state.schemas@.dom(),
        state.stores@.dom(),
        with_changes(created_schemas, changes, order, 0).dom(),
        created_stores,
        request.table_renames@,
        0,
    );
}

} // verus!
