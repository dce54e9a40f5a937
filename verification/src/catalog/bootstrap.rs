//! The catalog of a database that holds nothing yet.
use super::binder::binding_refusal;
use super::binder::bound_tables_from;
use super::binder::bound_views_from;
use super::binder::BoundTable;
use super::objects::Edge;
use super::objects::Generation;
use super::objects::Object;
use super::objects::Payload;
use crate::error::ErrorView;
use crate::publication::control::unix_time_nanos;
use crate::publication::control::CatalogMeta;
use crate::view::ViewContent;
use vstd::prelude::*;
use vstd::string::StringExecFns;

verus! {

/// First generation of a catalog.
#[derive(Debug)]
pub struct BootstrapCatalog {
    pub meta: CatalogMeta,
    /// Log position up to which the catalog accounts for commits.
    pub snapshot_lsn: u64,
    pub created_unix_ns: u64,
    pub generation: Generation,
}

/// A generation whose only object is the namespace `public`.
pub open spec fn is_bootstrap(g: Generation, namespace_id: u128) -> bool {
    &&& g.objects@.len() == 1
    &&& g.objects@[0].id == namespace_id
    &&& g.objects@[0].display@ == "public"@
    &&& g.objects@[0].normalized@ == "public"@
    &&& g.objects@[0].payload == Payload::Other
    &&& g.edges@.len() == 0
}

/// Makes the first generation under the given identities.
pub fn bootstrap_catalog_generation(
    namespace_id: u128,
    database_id: u128,
    catalog_id: u128,
    since_epoch_nanos: u128,
) -> (r: BootstrapCatalog)
    ensures
        r.meta == (CatalogMeta { database_id, catalog_id, catalog_generation: 1 }),
        r.snapshot_lsn == 0,
        r.created_unix_ns == if since_epoch_nanos > u64::MAX {
            u64::MAX as int
        } else {
            since_epoch_nanos as int
        },
        is_bootstrap(r.generation, namespace_id),
{
    let mut objects: Vec<Object> = Vec::new();
    objects.push(
        Object {
            id: namespace_id,
            display: String::from_str("public"),
            normalized: String::from_str("public"),
            payload: Payload::Other,
        },
    );
    let edges: Vec<Edge> = Vec::new();
    BootstrapCatalog {
        meta: CatalogMeta { database_id, catalog_id, catalog_generation: 1 },
        snapshot_lsn: 0,
        created_unix_ns: unix_time_nanos(since_epoch_nanos),
        generation: Generation { objects, edges },
    }
}

/// The first generation can be bound, and holds no table and no view.
pub proof fn law_first_catalog_is_empty(g: Generation, namespace_id: u128)
    requires
        is_bootstrap(g, namespace_id),
    ensures
        binding_refusal(g) is None,
        bound_tables_from(g, 0) == Ok::<Seq<BoundTable>, ErrorView>(Seq::empty()),
        bound_views_from(g, 0) == Ok::<Seq<ViewContent>, ErrorView>(Seq::empty()),
{
    reveal_with_fuel(bound_tables_from, 2);
    reveal_with_fuel(bound_views_from, 2);
}

} // verus!
