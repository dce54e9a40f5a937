//! What a transaction asks of the catalog, and the catalog it asks.
use crate::model::views;
use crate::names::NameMap;
use crate::schema::IndexInfo;
use crate::schema::IndexType;
use crate::schema::IndexView;
use crate::schema::Schema;
use crate::schema::SchemaVerdicts;
use crate::schema::SchemaView;
use crate::text::lowercase_text;
use crate::text::same_text;
use crate::text::to_lowercase;
use crate::view::ViewDefinition;
use vstd::prelude::*;

verus! {

/// A table that one transaction created and nobody else can see.
#[derive(Debug)]
pub struct PendingTable {
    pub owner_txn_id: i64,
    pub schema: Schema,
    pub indexes: Vec<IndexInfo>,
}

/// The hot owner of one table.
#[derive(Debug)]
pub struct Store {
    pub schema: Schema,
    pub indexes: Vec<IndexInfo>,
}

/// Content of a table's hot owner.
pub struct StoreView {
    pub schema: SchemaView,
    pub indexes: Seq<IndexView>,
}

impl View for Store {
    type V = StoreView;

    open spec fn view(&self) -> StoreView {
        StoreView { schema: self.schema@, indexes: views(self.indexes@) }
    }
}

/// Whether a store has an index of this name at this position.
pub open spec fn index_named_at(indexes: Seq<IndexInfo>, name: Seq<char>, i: int) -> bool {
    0 <= i < indexes.len() && indexes[i].name@ == name
}

pub open spec fn has_index(indexes: Seq<IndexInfo>, name: Seq<char>) -> bool {
    exists|i: int| #[trigger] index_named_at(indexes, name, i)
}

impl Store {
    pub fn has_index(&self, name: &str) -> (r: bool)
        ensures
            r == has_index(self.indexes@, name@),
    {
        let mut i: usize = 0;
        while i < self.indexes.len()
            invariant
                0 <= i <= self.indexes@.len(),
                forall|k: int| k < i ==> !#[trigger] index_named_at(self.indexes@, name@, k),
            decreases self.indexes@.len() - i,
        {
            if same_text(self.indexes[i].name.as_str(), name) {
                assert(index_named_at(self.indexes@, name@, i as int));
                return true;
            }
            i = i + 1;
        }
        false
    }
}

/// The published catalog with the tables that transactions hold back.
#[derive(Debug)]
pub struct CatalogState {
    pub schemas: NameMap<Schema>,
    pub stores: NameMap<Store>,
    pub pending: NameMap<PendingTable>,
    pub views: NameMap<ViewDefinition>,
}

impl CatalogState {
    pub open spec fn wf(self) -> bool {
        &&& self.schemas.wf()
        &&& self.stores.wf()
        &&& self.pending.wf()
        &&& self.views.wf()
    }
}

/// A table that the transaction created.
#[derive(Debug)]
pub struct CreatedTable {
    pub name: String,
    pub verdicts: SchemaVerdicts,
}

/// A table that the transaction drops, with the schema it saw.
#[derive(Debug)]
pub struct DroppedTable {
    pub name: String,
    pub schema: Schema,
}

/// A change of columns that moves or renames stored values.
#[derive(Debug)]
pub enum SchemaPhysicalTransition {
    DropColumn { column_name: String, column_index: usize },
    RenameColumn { old_name: String, new_name: String },
}

/// A staged schema, with the catalog schema it was staged on.
#[derive(Debug)]
pub struct PendingSchemaChange {
    pub table_name: String,
    pub schema: Schema,
    pub expected_catalog_schema: Schema,
    pub physical_transition: Option<SchemaPhysicalTransition>,
    pub requires_row_normalization: bool,
    pub verdicts: SchemaVerdicts,
}

#[derive(Debug)]
pub struct PendingIndexDrop {
    pub table_name: String,
    pub index_name: String,
    /// The index belongs to a constraint of the schema.
    pub schema_owned: bool,
}

#[derive(Debug)]
pub struct PendingIndexRename {
    pub table_name: String,
    pub old_index_name: String,
    pub new_index_name: String,
}

#[derive(Debug)]
pub struct PendingTableRename {
    pub old_name: String,
    pub new_name: String,
}

/// An index that the transaction asks for.
#[derive(Debug)]
pub struct PendingIndexDefinition {
    pub table_name: String,
    pub index_name: String,
    pub columns: Vec<String>,
    pub is_unique: bool,
    pub index_type: Option<IndexType>,
    pub hnsw_m: Option<u16>,
    pub hnsw_ef_construction: Option<u16>,
    pub hnsw_ef_search: Option<u16>,
    pub hnsw_distance_metric: Option<u8>,
    pub is_partial: bool,
    pub has_key_encoder: bool,
}

/// Everything one transaction changes in the catalog.
#[derive(Debug)]
pub struct DdlRequest {
    pub txn_id: i64,
    pub created_tables: Vec<CreatedTable>,
    pub dropped_tables: Vec<DroppedTable>,
    pub indexes: Vec<PendingIndexDefinition>,
    pub index_drops: Vec<PendingIndexDrop>,
    pub index_renames: Vec<PendingIndexRename>,
    pub table_renames: Vec<PendingTableRename>,
    pub schema_changes: Vec<PendingSchemaChange>,
    pub has_catalog_mutation: bool,
}

/// The catalog that a typed mutation leads to.
#[derive(Debug)]
pub struct BoundCatalog {
    pub schemas: Vec<Schema>,
    pub views: Vec<ViewDefinition>,
}

/// Whether a created table answers to a normalized name.
pub open spec fn creates_at(tables: Seq<CreatedTable>, name: Seq<char>, i: int) -> bool {
    0 <= i < tables.len() && lowercase_text(tables[i].name@) == name
}

/// Whether the transaction creates a table of this normalized name.
pub open spec fn creates(tables: Seq<CreatedTable>, name: Seq<char>) -> bool {
    exists|i: int| #[trigger] creates_at(tables, name, i)
}

pub open spec fn drops_at(tables: Seq<DroppedTable>, name: Seq<char>, i: int) -> bool {
    0 <= i < tables.len() && lowercase_text(tables[i].name@) == name
}

/// Whether the transaction drops the table of this normalized name.
pub open spec fn drops(tables: Seq<DroppedTable>, name: Seq<char>) -> bool {
    exists|i: int| #[trigger] drops_at(tables, name, i)
}

pub fn is_created(tables: &Vec<CreatedTable>, name: &str) -> (r: bool)
    ensures
        r == creates(tables@, name@),
{
    let mut i: usize = 0;
    while i < tables.len()
        invariant
            0 <= i <= tables@.len(),
            forall|k: int| k < i ==> !#[trigger] creates_at(tables@, name@, k),
        decreases tables@.len() - i,
    {
        let lower: String = to_lowercase(tables[i].name.as_str());
        if same_text(lower.as_str(), name) {
            assert(creates_at(tables@, name@, i as int));
            return true;
        }
        i = i + 1;
    }
    false
}

pub fn is_dropped(tables: &Vec<DroppedTable>, name: &str) -> (r: bool)
    ensures
        r == drops(tables@, name@),
{
    let mut i: usize = 0;
    while i < tables.len()
        invariant
            0 <= i <= tables@.len(),
            forall|k: int| k < i ==> !#[trigger] drops_at(tables@, name@, k),
        decreases tables@.len() - i,
    {
        let lower: String = to_lowercase(tables[i].name.as_str());
        if same_text(lower.as_str(), name) {
            assert(drops_at(tables@, name@, i as int));
            return true;
        }
        i = i + 1;
    }
    false
}

/// Schemas by their content.
pub open spec fn schema_contents(map: Map<Seq<char>, Schema>) -> Map<Seq<char>, SchemaView> {
    map.map_values(|schema: Schema| schema@)
}

} // verus!
