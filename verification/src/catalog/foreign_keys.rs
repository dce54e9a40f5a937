//! Which tables refer to a table.
use crate::ddl::request::PendingTable;
use crate::model::views;
use crate::model::Model;
use crate::names::association;
use crate::names::lemma_entry;
use crate::names::NameMap;
use crate::schema::ForeignKeyConstraint;
use crate::schema::ForeignKeyView;
use crate::schema::Schema;
use crate::schema::SchemaView;
use crate::text::eq_ignore_ascii_case;
use crate::text::lowercase_text;
use crate::text::same_ignoring_ascii_case;
use crate::text::same_text;
use crate::text::to_lowercase;
use vstd::prelude::*;

verus! {

/// A foreign key and the table that has it.
#[derive(Debug)]
pub struct Referencing {
    pub table: String,
    pub foreign_key: ForeignKeyConstraint,
}

pub struct ReferencingView {
    pub table: Seq<char>,
    pub foreign_key: ForeignKeyView,
}

impl View for Referencing {
    type V = ReferencingView;

    open spec fn view(&self) -> ReferencingView {
        ReferencingView { table: self.table@, foreign_key: self.foreign_key@ }
    }
}

impl Model for Referencing {
    fn same(&self, other: &Self) -> (r: bool) {
        same_text(self.table.as_str(), other.table.as_str()) && self.foreign_key.same(
            &other.foreign_key,
        )
    }

    fn duplicate(&self) -> (r: Self) {
        Referencing { table: self.table.clone(), foreign_key: self.foreign_key.duplicate() }
    }
}

/// Foreign keys of a schema below `n`.
pub open spec fn schema_edges(schema: SchemaView, n: int) -> Seq<ReferencingView>
    decreases n,
{
    if n <= 0 {
        Seq::empty()
    } else {
        schema_edges(schema, n - 1).push(
            ReferencingView {
                table: schema.table_name_lower,
                foreign_key: schema.foreign_keys[n - 1],
            },
        )
    }
}

/// Foreign keys of the schemas below `n`.
pub open spec fn all_edges(schemas: Seq<SchemaView>, n: int) -> Seq<ReferencingView>
    decreases n,
{
    if n <= 0 {
        Seq::empty()
    } else {
        all_edges(schemas, n - 1) + schema_edges(
            schemas[n - 1],
            schemas[n - 1].foreign_keys.len() as int,
        )
    }
}

/// Schemas in the order in which a map lists them.
pub open spec fn listed_schemas(entries: Seq<(String, Schema)>) -> Seq<SchemaView> {
    entries.map_values(|e: (String, Schema)| e.1@)
}

/// All foreign keys of the listed schemas.
pub open spec fn edges_of(entries: Seq<(String, Schema)>) -> Seq<ReferencingView> {
    all_edges(listed_schemas(entries), entries.len() as int)
}

fn collect_edges(schemas: &NameMap<Schema>) -> (r: Vec<Referencing>)
    requires
        schemas.wf(),
    ensures
        views(r@) == edges_of(schemas.listed()),
{
    let ghost list = listed_schemas(schemas.listed());
    let mut out: Vec<Referencing> = Vec::new();
    assert(views(out@) =~= Seq::<ReferencingView>::empty());
    let n: usize = schemas.len();
    let mut i: usize = 0;
    while i < n
        invariant
            0 <= i <= n,
            n == schemas.listed().len(),
            list == listed_schemas(schemas.listed()),
            views(out@) == all_edges(list, i as int),
        decreases n - i,
    {
        let schema: &Schema = schemas.value_at(i);
        assert(list[i as int] == schema@);
        let ghost before = views(out@);
        let mut k: usize = 0;
        assert(views(out@) =~= before + schema_edges(schema@, 0));
        while k < schema.foreign_keys.len()
            invariant
                0 <= k <= schema.foreign_keys@.len(),
                schema@.foreign_keys.len() == schema.foreign_keys@.len(),
                views(out@) == before + schema_edges(schema@, k as int),
            decreases schema.foreign_keys@.len() - k,
        {
            assert(schema@.foreign_keys[k as int] == schema.foreign_keys@[k as int]@);
            let ghost held = views(out@);
            let edge = Referencing {
                table: schema.table_name_lower.clone(),
                foreign_key: schema.foreign_keys[k].duplicate(),
            };
            let ghost seen = edge@;
            out.push(edge);
            assert(views(out@) =~= held.push(seen));
            k = k + 1;
            assert(views(out@) =~= before + schema_edges(schema@, k as int));
        }
        i = i + 1;
    }
    out
}

/// Edges below `n` to a parent by its exact normalized name.
pub open spec fn edges_to(edges: Seq<ReferencingView>, parent: Seq<char>, n: int) -> Seq<
    ReferencingView,
>
    decreases n,
{
    if n <= 0 {
        Seq::empty()
    } else if edges[n - 1].foreign_key.referenced_table == parent {
        edges_to(edges, parent, n - 1).push(edges[n - 1])
    } else {
        edges_to(edges, parent, n - 1)
    }
}

/// The same, up to ASCII case.
pub open spec fn edges_to_any_case(edges: Seq<ReferencingView>, parent: Seq<char>, n: int) -> Seq<
    ReferencingView,
>
    decreases n,
{
    if n <= 0 {
        Seq::empty()
    } else if same_ignoring_ascii_case(edges[n - 1].foreign_key.referenced_table, parent) {
        edges_to_any_case(edges, parent, n - 1).push(edges[n - 1])
    } else {
        edges_to_any_case(edges, parent, n - 1)
    }
}

/// All foreign keys of one schema epoch. Epoch `u64::MAX` stands for none.
#[derive(Debug)]
pub struct FkReverseCache {
    epoch: u64,
    edges: Vec<Referencing>,
}

impl FkReverseCache {
    pub closed spec fn at(self) -> u64 {
        self.epoch
    }

    pub closed spec fn held(self) -> Seq<ReferencingView> {
        views(self.edges@)
    }

    /// The cache of a schema epoch holds what that epoch's schemas say.
    pub open spec fn is_current(self, epoch: u64, schemas: NameMap<Schema>) -> bool {
        self.at() == epoch ==> self.held() == edges_of(schemas.listed())
    }

    pub fn new() -> (r: Self)
        ensures
            r.at() == u64::MAX,
            r.held().len() == 0,
    {
        FkReverseCache { epoch: u64::MAX, edges: Vec::new() }
    }
}

fn select_edges(edges: &Vec<Referencing>, parent: &str) -> (r: Vec<Referencing>)
    ensures
        views(r@) == edges_to(views(edges@), parent@, edges@.len() as int),
{
    let ghost all = views(edges@);
    let mut out: Vec<Referencing> = Vec::new();
    assert(views(out@) =~= Seq::<ReferencingView>::empty());
    let mut i: usize = 0;
    while i < edges.len()
        invariant
            0 <= i <= edges@.len(),
            all == views(edges@),
            views(out@) == edges_to(all, parent@, i as int),
        decreases edges@.len() - i,
    {
        assert(all[i as int] == edges@[i as int]@);
        if same_text(edges[i].foreign_key.referenced_table.as_str(), parent) {
            let ghost before = views(out@);
            let edge: Referencing = edges[i].duplicate();
            let ghost seen = edge@;
            out.push(edge);
            assert(views(out@) =~= before.push(seen));
        }
        i = i + 1;
    }
    out
}

/// The foreign keys that refer to a table. What was collected for a schema
/// epoch is used until the epoch moves on.
pub fn find_referencing_fks(
    cache: &mut FkReverseCache,
    epoch: u64,
    schemas: &NameMap<Schema>,
    parent_table: &str,
) -> (r: Vec<Referencing>)
    requires
        schemas.wf(),
        old(cache).is_current(epoch, *schemas),
    ensures
        final(cache).at() == epoch,
        final(cache).is_current(epoch, *schemas),
        views(r@) == edges_to(
            edges_of(schemas.listed()),
            parent_table@,
            edges_of(schemas.listed()).len() as int,
        ),
{
    if cache.epoch != epoch {
        let edges: Vec<Referencing> = collect_edges(schemas);
        cache.edges = edges;
        cache.epoch = epoch;
    }
    assert(views(cache.edges@).len() == cache.edges@.len());
    select_edges(&cache.edges, parent_table)
}

/// A schema that a transaction staged for one of its tables.
#[derive(Debug)]
pub struct StagedSchema {
    pub name: String,
    pub schema: Option<Schema>,
}

pub open spec fn schema_views(map: Map<Seq<char>, Schema>) -> Map<Seq<char>, SchemaView> {
    map.map_values(|s: Schema| s@)
}

/// Schemas with the staged ones below `n` in place.
pub open spec fn with_staged(
    base: Map<Seq<char>, SchemaView>,
    staged: Seq<StagedSchema>,
    n: int,
) -> Map<Seq<char>, SchemaView>
    decreases n,
{
    if n <= 0 {
        base
    } else {
        let before = with_staged(base, staged, n - 1);
        match staged[n - 1].schema {
            Some(s) => before.insert(staged[n - 1].name@, s@),
            None => before,
        }
    }
}

/// Schemas with the transaction's unpublished tables below `n` in place.
pub open spec fn with_pending(
    base: Map<Seq<char>, SchemaView>,
    pending: Seq<(String, PendingTable)>,
    txn_id: i64,
    n: int,
) -> Map<Seq<char>, SchemaView>
    decreases n,
{
    if n <= 0 {
        base
    } else {
        let before = with_pending(base, pending, txn_id, n - 1);
        if pending[n - 1].1.owner_txn_id == txn_id {
            before.insert(pending[n - 1].0@, pending[n - 1].1.schema@)
        } else {
            before
        }
    }
}

/// The schemas that a transaction sees.
pub open spec fn seen_schemas(
    schemas: NameMap<Schema>,
    staged: Seq<StagedSchema>,
    pending: NameMap<PendingTable>,
    txn_id: i64,
) -> Map<Seq<char>, SchemaView> {
    with_pending(
        with_staged(schema_views(schemas@), staged, staged.len() as int),
        pending.listed(),
        txn_id,
        pending.listed().len() as int,
    )
}

/// Whether foreign keys are those of the seen schemas, each schema once.
pub open spec fn lists_edges_to(
    seen: Map<Seq<char>, SchemaView>,
    order: Seq<(String, Schema)>,
    parent: Seq<char>,
    r: Seq<ReferencingView>,
) -> bool {
    &&& schema_views(association(order)) == seen
    &&& crate::names::distinct_names(order)
    &&& r == edges_to_any_case(edges_of(order), parent, edges_of(order).len() as int)
}

proof fn lemma_insert_view(map: Map<Seq<char>, Schema>, name: Seq<char>, schema: Schema)
    ensures
        schema_views(map.insert(name, schema)) == schema_views(map).insert(name, schema@),
{
    assert(schema_views(map.insert(name, schema)) =~= schema_views(map).insert(name, schema@));
}

/// The foreign keys that refer to a table, as one transaction sees them: with
/// its staged schemas and its unpublished tables.
pub fn find_referencing_fks_for_txn(
    schemas: &NameMap<Schema>,
    staged: &Vec<StagedSchema>,
    pending: &NameMap<PendingTable>,
    txn_id: i64,
    parent_table: &str,
) -> (r: Vec<Referencing>)
    requires
        schemas.wf(),
        pending.wf(),
    ensures
        exists|order: Seq<(String, Schema)>| #[trigger]
            lists_edges_to(
                seen_schemas(*schemas, staged@, *pending, txn_id),
                order,
                lowercase_text(parent_table@),
                views(r@),
            ),
{
    let parent: String = to_lowercase(parent_table);
    let mut seen: NameMap<Schema> = NameMap::new();
    let n: usize = schemas.len();
    let mut i: usize = 0;
    while i < n
        invariant
            0 <= i <= n,
            schemas.wf(),
            n == schemas.listed().len(),
            seen.wf(),
            forall|name: Seq<char>| #[trigger]
                seen@.dom().contains(name) <==> exists|k: int|
                    0 <= k < i && (#[trigger] schemas.listed()[k]).0@ == name,
            forall|k: int|
                0 <= k < i ==> seen@[(#[trigger] schemas.listed()[k]).0@]@
                    == schemas.listed()[k].1@,
        decreases n - i,
    {
        let ghost before = seen@;
        let name: String = schemas.name_at(i).clone();
        let ghost key = name@;
        let copy: Schema = schemas.value_at(i).duplicate();
        seen.insert(name, copy);
        proof {
            assert forall|x: Seq<char>| #[trigger]
                seen@.dom().contains(x) <==> exists|k: int|
                    0 <= k < i + 1 && (#[trigger] schemas.listed()[k]).0@ == x by {
                if before.dom().contains(x) {
                    let k = choose|k: int|
                        0 <= k < i && (#[trigger] schemas.listed()[k]).0@ == x;
                    assert(schemas.listed()[k].0@ == x);
                }
                if x == key {
                    assert(schemas.listed()[i as int].0@ == x);
                }
            }
            assert forall|k: int| 0 <= k < i + 1 implies seen@[(
            #[trigger] schemas.listed()[k]).0@]@ == schemas.listed()[k].1@ by {
                if k < i {
                    assert(schemas.listed()[k].0@ != schemas.listed()[i as int].0@);
                }
            }
        }
        i = i + 1;
    }
    proof {
        assert(schema_views(seen@) =~= schema_views(schemas@)) by {
            assert forall|x: Seq<char>| seen@.dom().contains(x) <==> schemas@.dom().contains(x) by {
                if seen@.dom().contains(x) {
                    let k = choose|k: int|
                        0 <= k < n && (#[trigger] schemas.listed()[k]).0@ == x;
                    lemma_entry(schemas.listed(), k);
                }
                if schemas@.dom().contains(x) {
                    let k = choose|k: int| crate::names::named_at(schemas.listed(), x, k);
                    assert(crate::names::named_at(schemas.listed(), x, k));
                    assert(schemas.listed()[k].0@ == x);
                }
            }
            assert forall|x: Seq<char>| seen@.dom().contains(x) implies seen@[x]@
                == schemas@[x]@ by {
                let k = choose|k: int| 0 <= k < n && (#[trigger] schemas.listed()[k]).0@ == x;
                lemma_entry(schemas.listed(), k);
            }
        }
    }
    let ghost base = schema_views(schemas@);
    let mut s: usize = 0;
    while s < staged.len()
        invariant
            0 <= s <= staged@.len(),
            seen.wf(),
            schema_views(seen@) == with_staged(base, staged@, s as int),
        decreases staged@.len() - s,
    {
        if let Some(schema) = &staged[s].schema {
            let ghost before = seen@;
            let copy: Schema = schema.duplicate();
            proof {
                lemma_insert_view(before, staged@[s as int].name@, copy);
            }
            seen.insert(staged[s].name.clone(), copy);
        }
        s = s + 1;
    }
    let ghost overlaid = with_staged(base, staged@, staged@.len() as int);
    let m: usize = pending.len();
    let mut p: usize = 0;
    while p < m
        invariant
            0 <= p <= m,
            m == pending.listed().len(),
            seen.wf(),
            schema_views(seen@) == with_pending(overlaid, pending.listed(), txn_id, p as int),
        decreases m - p,
    {
        let table: &PendingTable = pending.value_at(p);
        if table.owner_txn_id == txn_id {
            let ghost before = seen@;
            let copy: Schema = table.schema.duplicate();
            proof {
                lemma_insert_view(before, pending.listed()[p as int].0@, copy);
            }
            seen.insert(pending.name_at(p).clone(), copy);
        }
        p = p + 1;
    }
    let edges: Vec<Referencing> = collect_edges(&seen);
    let ghost all = views(edges@);
    let mut out: Vec<Referencing> = Vec::new();
    assert(views(out@) =~= Seq::<ReferencingView>::empty());
    let mut e: usize = 0;
    while e < edges.len()
        invariant
            0 <= e <= edges@.len(),
            all == views(edges@),
            parent@ == lowercase_text(parent_table@),
            views(out@) == edges_to_any_case(all, parent@, e as int),
        decreases edges@.len() - e,
    {
        assert(all[e as int] == edges@[e as int]@);
        if eq_ignore_ascii_case(
            edges[e].foreign_key.referenced_table.as_str(),
            parent.as_str(),
        ) {
            let ghost before = views(out@);
            let edge: Referencing = edges[e].duplicate();
            let ghost held = edge@;
            out.push(edge);
            assert(views(out@) =~= before.push(held));
        }
        e = e + 1;
    }
    assert(lists_edges_to(
        seen_schemas(*schemas, staged@, *pending, txn_id),
        seen.listed(),
        parent@,
        views(out@),
    ));
    out
}

/// A foreign key refers to a table if and only if it is listed for it.
pub proof fn law_referencing_keys_are_complete(
    edges: Seq<ReferencingView>,
    parent: Seq<char>,
    n: int,
    edge: ReferencingView,
)
    requires
        0 <= n <= edges.len(),
    ensures
        edges_to(edges, parent, n).contains(edge) <==> edge.foreign_key.referenced_table == parent
            && edges.take(n).contains(edge),
    decreases n,
{
    if n > 0 {
        law_referencing_keys_are_complete(edges, parent, n - 1, edge);
        let before = edges_to(edges, parent, n - 1);
        let now = edges_to(edges, parent, n);
        assert(edges.take(n) =~= edges.take(n - 1).push(edges[n - 1]));
        if before.contains(edge) {
            let k = choose|k: int| 0 <= k < before.len() && before[k] == edge;
            assert(now[k] == edge);
        }
        if now.contains(edge) && !before.contains(edge) {
            let k = choose|k: int| 0 <= k < now.len() && now[k] == edge;
            if k < before.len() {
                assert(before[k] == edge);
            }
            assert(edges.take(n)[n - 1] == edge);
        }
        let shorter = edges.take(n - 1);
        let longer = edges.take(n);
        if shorter.contains(edge) {
            let k = choose|k: int| 0 <= k < shorter.len() && shorter[k] == edge;
            assert(longer[k] == edge);
        }
        if longer.contains(edge) && edge.foreign_key.referenced_table == parent {
            let k = choose|k: int| 0 <= k < longer.len() && longer[k] == edge;
            if k < n - 1 {
                assert(shorter[k] == edge);
            } else {
                assert(now[now.len() - 1] == edge);
            }
        }
    }
}

} // verus!
