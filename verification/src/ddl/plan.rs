//! All checks of a transaction's catalog changes, in their order.
use crate::ddl::final_catalog::all_keys_in_range;
use crate::ddl::final_catalog::build_final_catalog;
use crate::ddl::final_catalog::catalog_keys_check;
use crate::ddl::final_catalog::check_catalog_keys;
use crate::ddl::final_catalog::check_table_sets;
use crate::ddl::final_catalog::everything;
use crate::ddl::final_catalog::final_catalog;
use crate::ddl::final_catalog::keeps_key;
use crate::ddl::final_catalog::keys_in_range;
use crate::ddl::final_catalog::losing_keys;
use crate::ddl::final_catalog::not_dropped;
use crate::ddl::final_catalog::plan_row_checks;
use crate::ddl::final_catalog::renamed_schema;
use crate::ddl::final_catalog::retargeting;
use crate::ddl::final_catalog::reworked;
use crate::ddl::final_catalog::row_checks;
use crate::ddl::final_catalog::table_sets_refusal;
use crate::ddl::final_catalog::unchanged;
use crate::ddl::final_catalog::with_changes;
use crate::ddl::final_catalog::with_created;
use crate::ddl::final_catalog::with_renames;
use crate::ddl::final_catalog::without_keys_to;
use crate::ddl::final_catalog::Catalog;
use crate::ddl::prepare::authority_refusal;
use crate::ddl::prepare::change_check;
use crate::ddl::prepare::check_authority;
use crate::ddl::prepare::check_drops;
use crate::ddl::prepare::check_index_drops;
use crate::ddl::prepare::check_index_renames;
use crate::ddl::prepare::check_reservations;
use crate::ddl::prepare::check_schema_changes;
use crate::ddl::prepare::check_table_renames;
use crate::ddl::prepare::check_transitions;
use crate::ddl::prepare::check_view_conflicts;
use crate::ddl::prepare::check_view_dependents;
use crate::ddl::prepare::drop_check;
use crate::ddl::prepare::final_schema_changes;
use crate::ddl::prepare::index_drop_check;
use crate::ddl::prepare::index_rename_check;
use crate::ddl::prepare::is_final_order;
use crate::ddl::prepare::is_last_change;
use crate::ddl::prepare::reservation_check;
use crate::ddl::prepare::table_rename_refusal;
use crate::ddl::prepare::transition_check;
use crate::ddl::prepare::view_conflict_check;
use crate::ddl::prepare::view_dependents_check;
use crate::ddl::request::schema_contents;
use crate::ddl::request::BoundCatalog;
use crate::ddl::request::CatalogState;
use crate::ddl::request::CreatedTable;
use crate::ddl::request::DdlRequest;
use crate::ddl::request::DroppedTable;
use crate::ddl::request::PendingSchemaChange;
use crate::ddl::request::PendingTable;
use crate::ddl::request::PendingTableRename;
use crate::error::earlier;
use crate::error::first_refusal;
use crate::error::refusal;
use crate::error::Error;
use crate::error::ErrorView;
use crate::names::association;
use crate::names::distinct_names;
use crate::names::NameMap;
use crate::schema::lemma_filter_push;
use crate::schema::retargeted;
use crate::schema::retargeted_schema;
use crate::schema::Schema;
use crate::schema::SchemaView;
use vstd::prelude::*;

verus! {

/// Every schema that a request brings in names columns of its own table.
pub open spec fn request_in_range(state: CatalogState, request: DdlRequest) -> bool {
    &&& all_keys_in_range(schema_contents(state.schemas@))
    &&& forall|name: Seq<char>| #[trigger]
        state.pending@.dom().contains(name) ==> keys_in_range(state.pending@[name].schema@)
    &&& forall|i: int|
        0 <= i < request.schema_changes@.len() ==> keys_in_range(
            (#[trigger] request.schema_changes@[i]).schema@,
        )
}

proof fn lemma_filtered<A>(s: Seq<A>, keep: spec_fn(A) -> bool, n: int)
    requires
        0 <= n <= s.len(),
    ensures
        forall|i: int|
            0 <= i < s.take(n).filter(keep).len() ==> s.contains(
                #[trigger] s.take(n).filter(keep)[i],
            ),
    decreases n,
{
    if n == 0 {
        reveal(Seq::filter);
        assert(s.take(0).filter(keep).len() == 0);
    } else {
        lemma_filtered(s, keep, n - 1);
        lemma_filter_push(s, n - 1, keep);
        let shorter = s.take(n - 1).filter(keep);
        let longer = s.take(n).filter(keep);
        assert(s.contains(s[n - 1]));
        assert forall|i: int| 0 <= i < longer.len() implies s.contains(#[trigger] longer[i]) by {
            if i < shorter.len() {
                assert(longer[i] == shorter[i]);
            }
        }
    }
}

proof fn lemma_lost_keys_in_range(schema: SchemaView, dropped: Seq<DroppedTable>)
    requires
        keys_in_range(schema),
    ensures
        keys_in_range(without_keys_to(schema, dropped)),
{
    let all = schema.foreign_keys;
    let keep = keeps_key(dropped);
    lemma_filtered(all, keep, all.len() as int);
    assert(all.take(all.len() as int) =~= all);
    let kept = without_keys_to(schema, dropped);
    assert forall|i: int| 0 <= i < kept.foreign_keys.len() implies (
    #[trigger] kept.foreign_keys[i]).column_index < kept.columns.len() by {
        assert(all.contains(kept.foreign_keys[i]));
        let j = choose|j: int| 0 <= j < all.len() && all[j] == kept.foreign_keys[i];
        assert(schema.foreign_keys[j].column_index < schema.columns.len());
    }
}

proof fn lemma_retargeted_in_range(
    schema: SchemaView,
    old_name: Seq<char>,
    new_name: Seq<char>,
)
    requires
        keys_in_range(schema),
    ensures
        keys_in_range(retargeted_schema(schema, old_name, new_name)),
{
    let next = retargeted_schema(schema, old_name, new_name);
    assert forall|i: int| 0 <= i < next.foreign_keys.len() implies (
    #[trigger] next.foreign_keys[i]).column_index < next.columns.len() by {
        assert(next.foreign_keys[i] == retargeted(schema.foreign_keys[i], old_name, new_name));
        assert(schema.foreign_keys[i].column_index < schema.columns.len());
    }
}

proof fn lemma_created_in_range(
    catalog: Catalog,
    pending: Map<Seq<char>, PendingTable>,
    txn_id: i64,
    created: Seq<CreatedTable>,
    i: int,
)
    requires
        all_keys_in_range(catalog),
        forall|name: Seq<char>| #[trigger]
            pending.dom().contains(name) ==> keys_in_range(pending[name].schema@),
    ensures
        with_created(catalog, pending, txn_id, created, i) matches Ok(m) ==> all_keys_in_range(m),
    decreases created.len() - i,
{
    if 0 <= i < created.len() {
        let lower = crate::text::lowercase_text(created[i].name@);
        if pending.dom().contains(lower) && pending[lower].owner_txn_id == txn_id {
            lemma_created_in_range(
                catalog.insert(lower, pending[lower].schema@),
                pending,
                txn_id,
                created,
                i + 1,
            );
        }
    }
}

proof fn lemma_changes_in_range(
    catalog: Catalog,
    changes: Seq<PendingSchemaChange>,
    order: Seq<usize>,
    i: int,
)
    requires
        all_keys_in_range(catalog),
        is_final_order(changes, order),
        forall|k: int|
            0 <= k < changes.len() ==> keys_in_range((#[trigger] changes[k]).schema@),
    ensures
        all_keys_in_range(with_changes(catalog, changes, order, i)),
    decreases order.len() - i,
{
    if 0 <= i < order.len() {
        assert(is_last_change(changes, order[i] as int));
        let change = changes[order[i] as int];
        lemma_changes_in_range(
            catalog.insert(crate::text::lowercase_text(change.table_name@), change.schema@),
            changes,
            order,
            i + 1,
        );
    }
}

proof fn lemma_renames_in_range(catalog: Catalog, renames: Seq<PendingTableRename>, i: int)
    requires
        all_keys_in_range(catalog),
    ensures
        with_renames(catalog, renames, i) matches Ok(m) ==> all_keys_in_range(m),
    decreases renames.len() - i,
{
    if 0 <= i < renames.len() {
        let old_name = renames[i].old_name@;
        let new_name = renames[i].new_name@;
        if catalog.dom().contains(old_name) {
            let others = reworked(
                catalog.remove(old_name),
                everything(),
                retargeting(old_name, new_name),
            );
            let plain = renamed_schema(catalog[old_name], new_name);
            let renamed = retargeted_schema(plain, old_name, new_name);
            assert(keys_in_range(plain)) by {
                assert forall|k: int| 0 <= k < plain.foreign_keys.len() implies (
                #[trigger] plain.foreign_keys[k]).column_index < plain.columns.len() by {
                    assert(catalog[old_name].foreign_keys[k].column_index
                        < catalog[old_name].columns.len());
                }
            }
            lemma_retargeted_in_range(plain, old_name, new_name);
            assert forall|name: Seq<char>| #[trigger]
                others.dom().contains(name) implies keys_in_range(others[name]) by {
                assert(catalog.dom().contains(name));
                lemma_retargeted_in_range(catalog[name], old_name, new_name);
            }
            lemma_renames_in_range(others.insert(new_name, renamed), renames, i + 1);
        }
    }
}

/// Foreign keys of the final catalog still name columns of their own tables.
proof fn lemma_final_in_range(state: CatalogState, request: DdlRequest, order: Seq<usize>)
    requires
        request_in_range(state, request),
        is_final_order(request.schema_changes@, order),
    ensures
        requested_catalog(state, request, order) matches Ok(m) ==> all_keys_in_range(m),
{
    let published = schema_contents(state.schemas@);
    let base = reworked(published, not_dropped(request.dropped_tables@), unchanged());
    assert forall|name: Seq<char>| #[trigger] base.dom().contains(name) implies keys_in_range(
        base[name],
    ) by {
        assert(published.dom().contains(name));
    }
    lemma_created_in_range(
        base,
        state.pending@,
        request.txn_id,
        request.created_tables@,
        0,
    );
    if let Ok(all) = with_created(
        base,
        state.pending@,
        request.txn_id,
        request.created_tables@,
        0,
    ) {
        lemma_changes_in_range(all, request.schema_changes@, order, 0);
        let changed = with_changes(all, request.schema_changes@, order, 0);
        lemma_renames_in_range(changed, request.table_renames@, 0);
        if let Ok(renamed) = with_renames(changed, request.table_renames@, 0) {
            let last = reworked(
                renamed,
                everything(),
                losing_keys(request.created_tables@, request.dropped_tables@),
            );
            assert forall|name: Seq<char>| #[trigger]
                last.dom().contains(name) implies keys_in_range(last[name]) by {
                assert(renamed.dom().contains(name));
                lemma_lost_keys_in_range(renamed[name], request.dropped_tables@);
            }
        }
    }
}

/// The catalog that the request leads to.
pub open spec fn requested_catalog(
    state: CatalogState,
    request: DdlRequest,
    order: Seq<usize>,
) -> Result<Catalog, ErrorView> {
    final_catalog(
        schema_contents(state.schemas@),
        state.pending@,
        request.txn_id,
        request.created_tables@,
        request.dropped_tables@,
        request.schema_changes@,
        order,
        request.table_renames@,
    )
}

/// What the typed mutation was bound to, and whether its views are free.
pub open spec fn binding_refusal(
    state: CatalogState,
    bound: Option<Result<BoundCatalog, Error>>,
) -> Option<ErrorView> {
    match bound {
        None => None,
        Some(Err(e)) => Some(e@),
        Some(Ok(catalog)) => first_refusal(
            0,
            catalog.views@.len() as int,
            view_conflict_check(state.pending@, catalog.views@),
        ),
    }
}

/// Checks of single requests against the published catalog, in their order.
pub open spec fn request_refusal(
    state: CatalogState,
    request: DdlRequest,
    bound: Option<Result<BoundCatalog, Error>>,
    order: Seq<usize>,
) -> Option<ErrorView> {
    earlier(
        authority_refusal(request),
        earlier(
            first_refusal(
                0,
                request.created_tables@.len() as int,
                reservation_check(state, request),
            ),
            earlier(
                binding_refusal(state, bound),
                earlier(
                    first_refusal(
                        0,
                        request.dropped_tables@.len() as int,
                        drop_check(state.schemas@, request.dropped_tables@),
                    ),
                    earlier(
                        first_refusal(
                            0,
                            state.views.listed().len() as int,
                            view_dependents_check(request.dropped_tables@, state.views.listed()),
                        ),
                        target_refusal(state, request, order),
                    ),
                ),
            ),
        ),
    )
}

/// Checks of changes against their tables and indexes, in their order.
pub open spec fn target_refusal(
    state: CatalogState,
    request: DdlRequest,
    order: Seq<usize>,
) -> Option<ErrorView> {
    earlier(
        first_refusal(
            0,
            order.len() as int,
            change_check(
                state.schemas@,
                request.created_tables@,
                request.schema_changes@,
                order,
            ),
        ),
        earlier(
            first_refusal(
                0,
                request.schema_changes@.len() as int,
                transition_check(state.stores@, request.schema_changes@),
            ),
            earlier(
                first_refusal(
                    0,
                    request.index_drops@.len() as int,
                    index_drop_check(
                        state.stores@,
                        request.dropped_tables@,
                        request.index_drops@,
                    ),
                ),
                earlier(
                    first_refusal(
                        0,
                        request.index_renames@.len() as int,
                        index_rename_check(state.stores@, request.index_renames@),
                    ),
                    table_rename_refusal(
                        state.schemas@.dom(),
                        state.stores@.dom(),
                        request.table_renames@,
                        0,
                    ),
                ),
            ),
        ),
    )
}

/// Checks of the catalog as a whole. Tables are visited in the order of
/// `listed`.
pub open spec fn catalog_refusal(
    catalog: Result<Catalog, ErrorView>,
    listed: Seq<(String, Schema)>,
    bound: Option<Result<BoundCatalog, Error>>,
) -> Option<ErrorView> {
    match catalog {
        Err(e) => Some(e),
        Ok(m) => earlier(
            first_refusal(0, listed.len() as int, catalog_keys_check(m, listed)),
            match bound {
                Some(Ok(b)) => table_sets_refusal(m, b.schemas@),
                _ => None,
            },
        ),
    }
}

/// A listing of a catalog names each of its tables once.
pub open spec fn lists_catalog(listed: Seq<(String, Schema)>, catalog: Result<Catalog, ErrorView>) -> bool {
    catalog matches Ok(m) ==> distinct_names(listed) && schema_contents(association(listed)) == m
}

/// What remains to be done for an admitted request.
#[derive(Debug)]
pub struct DdlPlan {
    /// Positions of the final schema changes.
    pub order: Vec<usize>,
    /// The catalog to be published.
    pub catalog: NameMap<Schema>,
    /// Tables whose rows have to be checked, with their schemas.
    pub row_checks: NameMap<Schema>,
    /// The typed catalog.
    pub bound: Option<BoundCatalog>,
}

spec fn listing_of(built: Result<NameMap<Schema>, Error>) -> Seq<(String, Schema)> {
    match built {
        Ok(catalog) => catalog.listed(),
        Err(_) => Seq::empty(),
    }
}

fn check_binding(state: &CatalogState, bound: &Option<Result<BoundCatalog, Error>>) -> (r: Result<
    (),
    Error,
>)
    requires
        state.wf(),
    ensures
        refusal(r) == binding_refusal(*state, *bound),
{
    match bound {
        None => Ok(()),
        Some(Err(error)) => Err(error.duplicate()),
        Some(Ok(catalog)) => check_view_conflicts(&state.pending, &catalog.views),
    }
}

fn check_request(
    state: &CatalogState,
    request: &DdlRequest,
    bound: &Option<Result<BoundCatalog, Error>>,
    order: &Vec<usize>,
) -> (r: Result<(), Error>)
    requires
        state.wf(),
        is_final_order(request.schema_changes@, order@),
    ensures
        refusal(r) == request_refusal(*state, *request, *bound, order@),
{
    let r: Result<(), Error> = check_authority(request);
    if r.is_err() {
        return r;
    }
    let r: Result<(), Error> = check_reservations(state, request);
    if r.is_err() {
        return r;
    }
    let r: Result<(), Error> = check_binding(state, bound);
    if r.is_err() {
        return r;
    }
    let r: Result<(), Error> = check_drops(&state.schemas, &request.dropped_tables);
    if r.is_err() {
        return r;
    }
    let r: Result<(), Error> = check_view_dependents(&request.dropped_tables, &state.views);
    if r.is_err() {
        return r;
    }
    let r: Result<(), Error> = check_schema_changes(
        &state.schemas,
        &request.created_tables,
        &request.schema_changes,
        order,
    );
    if r.is_err() {
        return r;
    }
    let r: Result<(), Error> = check_transitions(&state.stores, &request.schema_changes);
    if r.is_err() {
        return r;
    }
    let r: Result<(), Error> = check_index_drops(
        &state.stores,
        &request.dropped_tables,
        &request.index_drops,
    );
    if r.is_err() {
        return r;
    }
    let r: Result<(), Error> = check_index_renames(&state.stores, &request.index_renames);
    if r.is_err() {
        return r;
    }
    check_table_renames(&state.schemas, &state.stores, &request.table_renames)
}

/// Proves every publication step of a transaction's catalog changes while
/// they can still be refused. `bound` is what binding the typed mutation
/// gave, where there is one.
pub fn prepare_transactional_ddl(
    state: &CatalogState,
    request: &DdlRequest,
    bound: Option<Result<BoundCatalog, Error>>,
) -> (r: Result<DdlPlan, Error>)
    requires
        state.wf(),
        request_in_range(*state, *request),
        request.has_catalog_mutation == bound.is_some(),
    ensures
        exists|order: Seq<usize>, listed: Seq<(String, Schema)>|
            {
                &&& is_final_order(request.schema_changes@, order)
                &&& #[trigger] lists_catalog(listed, requested_catalog(*state, *request, order))
                &&& refusal(r) == earlier(
                    request_refusal(*state, *request, bound, order),
                    catalog_refusal(requested_catalog(*state, *request, order), listed, bound),
                )
            },
        r matches Ok(plan) ==> {
            &&& is_final_order(request.schema_changes@, plan.order@)
            &&& plan.catalog.wf()
            &&& requested_catalog(*state, *request, plan.order@) == Ok::<Catalog, ErrorView>(
                schema_contents(plan.catalog@),
            )
            &&& plan.row_checks.wf()
            &&& schema_contents(plan.row_checks@) == row_checks(
                state.pending@,
                request.created_tables@,
                request.dropped_tables@,
                request.schema_changes@,
                plan.order@,
            )
            &&& plan.bound == match bound {
                Some(Ok(b)) => Some(b),
                _ => None,
            }
        },
{
    let order: Vec<usize> = final_schema_changes(&request.schema_changes);
    let built: Result<NameMap<Schema>, Error> = build_final_catalog(
        &state.schemas,
        &state.pending,
        request.txn_id,
        &request.created_tables,
        &request.dropped_tables,
        &request.schema_changes,
        &order,
        &request.table_renames,
    );
    let ghost wanted = requested_catalog(*state, *request, order@);
    let ghost listed = listing_of(built);
    assert(lists_catalog(listed, wanted));
    match check_request(state, request, &bound, &order) {
        Ok(_) => {},
        Err(error) => {
            return Err(error);
        },
    }
    let catalog: NameMap<Schema> = match built {
        Ok(catalog) => catalog,
        Err(error) => {
            return Err(error);
        },
    };
    proof {
        lemma_final_in_range(*state, *request, order@);
    }
    match check_catalog_keys(&catalog) {
        Ok(_) => {},
        Err(error) => {
            return Err(error);
        },
    }
    let typed: Option<BoundCatalog> = match bound {
        Some(Ok(b)) => {
            match check_table_sets(&catalog, &b.schemas) {
                Ok(_) => {},
                Err(error) => {
                    return Err(error);
                },
            }
            Some(b)
        },
        _ => None,
    };
    let row_checks: NameMap<Schema> = plan_row_checks(
        &state.pending,
        &request.created_tables,
        &request.dropped_tables,
        &request.schema_changes,
        &order,
    );
    Ok(DdlPlan { order, catalog, row_checks, bound: typed })
}

} // verus!
