//! What the catalog says about a table's columns and indexes.
use super::definition::definition_bytes;
use super::definition::index_definition_sha256;
use super::definition::IndexDefinition;
use crate::checksum::sha256;
use crate::error::first_refusal;
use crate::error::refusal;
use crate::error::Error;
use crate::error::ErrorView;
use crate::schema::DataType;
use vstd::prelude::*;

verus! {

/// How an index finds rows.
#[derive(Debug, Clone, Copy, PartialEq, Eq, Structural)]
pub enum AccessMethod {
    Btree,
    Hash,
    Bitmap,
    Hnsw,
}

/// An index of the catalog.
#[derive(Debug)]
pub struct CatalogIndex {
    pub access_method: AccessMethod,
    pub key_column_ids: Vec<u128>,
    pub has_operator_class: bool,
    /// The definition that the index's digest covers.
    pub definition: IndexDefinition,
}

/// Where the type of a column is defined.
#[derive(Debug, Clone, Copy, PartialEq, Eq, Structural)]
pub enum TypeObject {
    BuiltIn,
    /// A catalog object; nothing where its identity was lost.
    External(Option<u128>),
}

#[derive(Debug)]
pub enum CatalogPayload {
    Table { column_ids: Vec<u128>, index_ids: Vec<u128> },
    Column { data_type: DataType, nullable: bool, type_object: TypeObject },
    Index(CatalogIndex),
    /// A primary-key or unique constraint.
    KeyConstraint,
    Other,
}

#[derive(Debug)]
pub struct CatalogObject {
    pub id: u128,
    pub parent_id: Option<u128>,
    /// Name as it was written.
    pub name: String,
    pub payload: CatalogPayload,
    /// Targets of the edges by which the object depends on another.
    pub depends_on: Vec<u128>,
}

/// First object with an identity.
pub open spec fn object_of(objects: Seq<CatalogObject>, id: u128, i: int) -> Option<CatalogObject>
    decreases objects.len() - i,
{
    if i < 0 || i >= objects.len() {
        None
    } else if objects[i].id == id {
        Some(objects[i])
    } else {
        object_of(objects, id, i + 1)
    }
}

pub fn find_object<'a>(objects: &'a Vec<CatalogObject>, id: u128) -> (r: Option<&'a CatalogObject>)
    ensures
        match r {
            Some(o) => object_of(objects@, id, 0) == Some(*o),
            None => object_of(objects@, id, 0) is None,
        },
{
    let mut i: usize = 0;
    while i < objects.len()
        invariant
            0 <= i <= objects@.len(),
            object_of(objects@, id, 0) == object_of(objects@, id, i as int),
        decreases objects@.len() - i,
    {
        if objects[i].id == id {
            return Some(&objects[i]);
        }
        i = i + 1;
    }
    None
}

/// A column of a DATA artifact.
#[derive(Debug, Clone, Copy, PartialEq, Eq, Structural)]
pub struct DataColumnSpec {
    pub column_id: u128,
    pub data_type: DataType,
    pub nullable: bool,
}

pub open spec fn column_refusal(objects: Seq<CatalogObject>, id: u128) -> Option<ErrorView> {
    match object_of(objects, id, 0) {
        None => Some(ErrorView::Internal("table column is absent from logical catalog"@)),
        Some(o) => match o.payload {
            CatalogPayload::Column { .. } => None,
            _ => Some(ErrorView::Internal("table column object has the wrong kind"@)),
        },
    }
}

pub open spec fn column_spec(objects: Seq<CatalogObject>, id: u128) -> DataColumnSpec {
    match object_of(objects, id, 0)->Some_0.payload {
        CatalogPayload::Column { data_type, nullable, .. } => DataColumnSpec {
            column_id: id,
            data_type,
            nullable,
        },
        _ => arbitrary(),
    }
}

/// Why an identity does not name a table that can be sealed.
pub open spec fn sealed_table_refusal(objects: Seq<CatalogObject>, table_id: u128) -> Option<ErrorView> {
    match object_of(objects, table_id, 0) {
        None => Some(ErrorView::Internal("sealed table is absent from logical catalog"@)),
        Some(o) => match o.payload {
            CatalogPayload::Table { .. } => None,
            _ => Some(ErrorView::Internal("sealed catalog object is not a table"@)),
        },
    }
}

pub open spec fn column_ids_of(objects: Seq<CatalogObject>, table_id: u128) -> Seq<u128> {
    match object_of(objects, table_id, 0)->Some_0.payload {
        CatalogPayload::Table { column_ids, .. } => column_ids@,
        _ => Seq::empty(),
    }
}

pub open spec fn index_ids_of(objects: Seq<CatalogObject>, table_id: u128) -> Seq<u128> {
    match object_of(objects, table_id, 0)->Some_0.payload {
        CatalogPayload::Table { index_ids, .. } => index_ids@,
        _ => Seq::empty(),
    }
}

pub open spec fn columns_refusal(objects: Seq<CatalogObject>, table_id: u128) -> Option<ErrorView> {
    match sealed_table_refusal(objects, table_id) {
        Some(e) => Some(e),
        None => {
            let ids = column_ids_of(objects, table_id);
            first_refusal(0, ids.len() as int, |i: int| column_refusal(objects, ids[i]))
        },
    }
}

/// Columns of a table in the order in which it lists them.
pub open spec fn listed_columns(objects: Seq<CatalogObject>, table_id: u128) -> Seq<
    DataColumnSpec,
> {
    column_ids_of(objects, table_id).map_values(|id: u128| column_spec(objects, id))
}

/// The columns of a table in the order in which it lists them.
pub fn table_columns(objects: &Vec<CatalogObject>, table_id: u128) -> (r: Result<
    Vec<DataColumnSpec>,
    Error,
>)
    ensures
        refusal(r) == columns_refusal(objects@, table_id),
        r matches Ok(columns) ==> columns@ == listed_columns(objects@, table_id),
{
    let table: &CatalogObject = match find_object(objects, table_id) {
        Some(t) => t,
        None => {
            return Err(Error::internal("sealed table is absent from logical catalog"));
        },
    };
    let ids: &Vec<u128> = match &table.payload {
        CatalogPayload::Table { column_ids, .. } => column_ids,
        _ => {
            return Err(Error::internal("sealed catalog object is not a table"));
        },
    };
    let ghost n = ids@.len() as int;
    let ghost check = |i: int| column_refusal(objects@, ids@[i]);
    let ghost wanted = ids@.map_values(|id: u128| column_spec(objects@, id));
    assert(check =~= |i: int| column_refusal(objects@, column_ids_of(objects@, table_id)[i]));
    let mut columns: Vec<DataColumnSpec> = Vec::new();
    let mut i: usize = 0;
    while i < ids.len()
        invariant
            0 <= i <= ids@.len(),
            n == ids@.len(),
            check == (|i: int| column_refusal(objects@, ids@[i])),
            wanted == ids@.map_values(|id: u128| column_spec(objects@, id)),
            columns_refusal(objects@, table_id) == first_refusal(0, n, check),
            first_refusal(0, n, check) == first_refusal(i as int, n, check),
            columns@ == wanted.take(i as int),
        decreases ids@.len() - i,
    {
        let id: u128 = ids[i];
        match find_object(objects, id) {
            None => {
                assert(check(i as int) is Some);
                return Err(Error::internal("table column is absent from logical catalog"));
            },
            Some(object) => match &object.payload {
                CatalogPayload::Column { data_type, nullable, .. } => {
                    assert(check(i as int) is None);
                    columns.push(
                        DataColumnSpec {
                            column_id: id,
                            data_type: *data_type,
                            nullable: *nullable,
                        },
                    );
                },
                _ => {
                    assert(check(i as int) is Some);
                    return Err(Error::internal("table column object has the wrong kind"));
                },
            },
        }
        i = i + 1;
        assert(columns@ =~= wanted.take(i as int));
    }
    assert(wanted.take(i as int) =~= wanted);
    Ok(columns)
}

/// How the values of a column are encoded.
#[derive(Debug, Clone, Copy, PartialEq, Eq, Structural)]
pub enum DataValueEncoding {
    Plain,
    Adaptive,
}

pub open spec fn value_encoding(data_type: DataType) -> DataValueEncoding {
    match data_type {
        DataType::Text | DataType::Json | DataType::Bytes => DataValueEncoding::Adaptive,
        _ => DataValueEncoding::Plain,
    }
}

/// Only values of varying length are worth adapting to.
pub fn data_column_policy(column: DataColumnSpec) -> (r: DataValueEncoding)
    ensures
        r == value_encoding(column.data_type),
{
    match column.data_type {
        DataType::Text | DataType::Json | DataType::Bytes => DataValueEncoding::Adaptive,
        _ => DataValueEncoding::Plain,
    }
}

#[derive(Debug, Clone, Copy, PartialEq, Eq, Structural)]
pub enum IndexSortDirection {
    Ascending,
    Descending,
}

#[derive(Debug, Clone, Copy, PartialEq, Eq, Structural)]
pub enum IndexNullsOrder {
    First,
    Last,
}

/// A key column of an accelerator.
#[derive(Debug, Clone, Copy, PartialEq, Eq, Structural)]
pub struct IndexKeyColumn {
    pub column_id: u128,
    pub data_type: DataType,
    pub direction: IndexSortDirection,
    pub nulls: IndexNullsOrder,
}

/// An accelerator of a complete pack.
#[derive(Debug)]
pub struct AcceleratorSpec {
    pub index_id: u128,
    pub unique: bool,
    pub constraint_owned: bool,
    /// Ordered pages; exact ones otherwise.
    pub ordered: bool,
    pub key_columns: Vec<IndexKeyColumn>,
    /// Digest of the index's definition.
    pub definition_sha256: Vec<u8>,
}

pub struct AcceleratorView {
    pub index_id: u128,
    pub unique: bool,
    pub constraint_owned: bool,
    pub ordered: bool,
    pub key_columns: Seq<IndexKeyColumn>,
    pub definition_sha256: Seq<u8>,
}

impl View for AcceleratorSpec {
    type V = AcceleratorView;

    open spec fn view(&self) -> AcceleratorView {
        AcceleratorView {
            index_id: self.index_id,
            unique: self.unique,
            constraint_owned: self.constraint_owned,
            ordered: self.ordered,
            key_columns: self.key_columns@,
            definition_sha256: self.definition_sha256@,
        }
    }
}

/// Whether immutable segments can carry an index. Expressions, predicates,
/// included columns, vector graphs and operator classes have no builder.
pub open spec fn has_builder(index: CatalogIndex) -> bool {
    &&& index.definition.expression_sql is None
    &&& index.definition.predicate_sql is None
    &&& index.definition.include_column_ids@.len() == 0
    &&& index.access_method != AccessMethod::Hnsw
    &&& !index.has_operator_class
}

pub open spec fn key_refusal(objects: Seq<CatalogObject>, id: u128) -> Option<ErrorView> {
    match object_of(objects, id, 0) {
        None => Some(ErrorView::Internal("index key column is absent from logical catalog"@)),
        Some(o) => match o.payload {
            CatalogPayload::Column { .. } => None,
            _ => Some(ErrorView::Internal("index key object is not a column"@)),
        },
    }
}

pub open spec fn key_column(objects: Seq<CatalogObject>, id: u128) -> IndexKeyColumn {
    match object_of(objects, id, 0)->Some_0.payload {
        CatalogPayload::Column { data_type, .. } => IndexKeyColumn {
            column_id: id,
            data_type,
            direction: IndexSortDirection::Ascending,
            nulls: IndexNullsOrder::Last,
        },
        _ => arbitrary(),
    }
}

pub open spec fn is_key_constraint(objects: Seq<CatalogObject>, id: u128) -> bool {
    object_of(objects, id, 0) matches Some(o) && o.payload is KeyConstraint
}

/// Whether an index belongs to a primary-key or unique constraint.
pub open spec fn owned_by_constraint(objects: Seq<CatalogObject>, targets: Seq<u128>) -> bool {
    exists|k: int| 0 <= k < targets.len() && is_key_constraint(objects, #[trigger] targets[k])
}

fn is_constraint_owned(objects: &Vec<CatalogObject>, targets: &Vec<u128>) -> (r: bool)
    ensures
        r == owned_by_constraint(objects@, targets@),
{
    let mut k: usize = 0;
    while k < targets.len()
        invariant
            0 <= k <= targets@.len(),
            forall|m: int| 0 <= m < k ==> !is_key_constraint(objects@, #[trigger] targets@[m]),
        decreases targets@.len() - k,
    {
        if let Some(object) = find_object(objects, targets[k]) {
            if let CatalogPayload::KeyConstraint = object.payload {
                assert(is_key_constraint(objects@, targets@[k as int]));
                return true;
            }
        }
        k = k + 1;
    }
    false
}

pub open spec fn keys_refusal(objects: Seq<CatalogObject>, ids: Seq<u128>) -> Option<ErrorView> {
    first_refusal(0, ids.len() as int, |i: int| key_refusal(objects, ids[i]))
}

fn key_columns(objects: &Vec<CatalogObject>, ids: &Vec<u128>) -> (r: Result<
    Vec<IndexKeyColumn>,
    Error,
>)
    ensures
        refusal(r) == keys_refusal(objects@, ids@),
        r matches Ok(columns) ==> columns@ == ids@.map_values(|id: u128| key_column(objects@, id)),
{
    let ghost n = ids@.len() as int;
    let ghost check = |i: int| key_refusal(objects@, ids@[i]);
    let ghost wanted = ids@.map_values(|id: u128| key_column(objects@, id));
    let mut columns: Vec<IndexKeyColumn> = Vec::new();
    let mut i: usize = 0;
    while i < ids.len()
        invariant
            0 <= i <= ids@.len(),
            n == ids@.len(),
            check == (|i: int| key_refusal(objects@, ids@[i])),
            wanted == ids@.map_values(|id: u128| key_column(objects@, id)),
            first_refusal(0, n, check) == first_refusal(i as int, n, check),
            columns@ == wanted.take(i as int),
        decreases ids@.len() - i,
    {
        let id: u128 = ids[i];
        match find_object(objects, id) {
            None => {
                assert(check(i as int) is Some);
                return Err(Error::internal("index key column is absent from logical catalog"));
            },
            Some(object) => match &object.payload {
                CatalogPayload::Column { data_type, .. } => {
                    assert(check(i as int) is None);
                    columns.push(
                        IndexKeyColumn {
                            column_id: id,
                            data_type: *data_type,
                            direction: IndexSortDirection::Ascending,
                            nulls: IndexNullsOrder::Last,
                        },
                    );
                },
                _ => {
                    assert(check(i as int) is Some);
                    return Err(Error::internal("index key object is not a column"));
                },
            },
        }
        i = i + 1;
        assert(columns@ =~= wanted.take(i as int));
    }
    assert(wanted.take(i as int) =~= wanted);
    Ok(columns)
}

/// One index of a table: refused, without a builder, or an accelerator.
pub open spec fn accelerator_of(objects: Seq<CatalogObject>, table_id: u128, id: u128) -> Result<
    Option<AcceleratorView>,
    ErrorView,
> {
    match object_of(objects, id, 0) {
        None => Err(ErrorView::Internal("table index is absent from logical catalog"@)),
        Some(o) => match o.payload {
            CatalogPayload::Index(index) => if o.parent_id != Some(table_id) {
                Err(ErrorView::Internal("table index has the wrong catalog parent"@))
            } else if !has_builder(index) {
                Ok(None)
            } else {
                match keys_refusal(objects, index.key_column_ids@) {
                    Some(e) => Err(e),
                    None => Ok(
                        Some(
                            AcceleratorView {
                                index_id: id,
                                unique: index.definition.unique,
                                constraint_owned: owned_by_constraint(objects, o.depends_on@),
                                ordered: index.access_method == AccessMethod::Btree,
                                key_columns: index.key_column_ids@.map_values(
                                    |c: u128| key_column(objects, c),
                                ),
                                definition_sha256: sha256(definition_bytes(index.definition)),
                            },
                        ),
                    ),
                }
            },
            _ => Err(ErrorView::Internal("table index object has the wrong kind"@)),
        },
    }
}

fn resolve_accelerator(objects: &Vec<CatalogObject>, table_id: u128, id: u128) -> (r: Result<
    Option<AcceleratorSpec>,
    Error,
>)
    ensures
        match r {
            Ok(Some(a)) => accelerator_of(objects@, table_id, id) == Ok::<
                Option<AcceleratorView>,
                ErrorView,
            >(Some(a@)),
            Ok(None) => accelerator_of(objects@, table_id, id) == Ok::<
                Option<AcceleratorView>,
                ErrorView,
            >(None),
            Err(e) => accelerator_of(objects@, table_id, id) == Err::<
                Option<AcceleratorView>,
                ErrorView,
            >(e@),
        },
{
    let object: &CatalogObject = match find_object(objects, id) {
        Some(o) => o,
        None => {
            return Err(Error::internal("table index is absent from logical catalog"));
        },
    };
    let index: &CatalogIndex = match &object.payload {
        CatalogPayload::Index(index) => index,
        _ => {
            return Err(Error::internal("table index object has the wrong kind"));
        },
    };
    let owned: bool = match object.parent_id {
        Some(parent) => parent == table_id,
        None => false,
    };
    if !owned {
        return Err(Error::internal("table index has the wrong catalog parent"));
    }
    if index.definition.expression_sql.is_some() || index.definition.predicate_sql.is_some()
        || index.definition.include_column_ids.len() > 0 || index.access_method
        == AccessMethod::Hnsw || index.has_operator_class {
        return Ok(None);
    }
    match key_columns(objects, &index.key_column_ids) {
        Err(e) => Err(e),
        Ok(columns) => Ok(
            Some(
                AcceleratorSpec {
                    index_id: id,
                    unique: index.definition.unique,
                    constraint_owned: is_constraint_owned(objects, &object.depends_on),
                    ordered: index.access_method == AccessMethod::Btree,
                    key_columns: columns,
                    definition_sha256: index_definition_sha256(&index.definition),
                },
            ),
        ),
    }
}

/// The accelerators from `i` on; nothing as soon as one has no builder.
pub open spec fn accelerators_from(
    objects: Seq<CatalogObject>,
    table_id: u128,
    ids: Seq<u128>,
    i: int,
) -> Result<Option<Seq<AcceleratorView>>, ErrorView>
    decreases ids.len() - i,
{
    if i < 0 || i >= ids.len() {
        Ok(Some(Seq::empty()))
    } else {
        match accelerator_of(objects, table_id, ids[i]) {
            Err(e) => Err(e),
            Ok(None) => Ok(None),
            Ok(Some(first)) => match accelerators_from(objects, table_id, ids, i + 1) {
                Err(e) => Err(e),
                Ok(None) => Ok(None),
                Ok(Some(rest)) => Ok(Some(seq![first] + rest)),
            },
        }
    }
}

/// The complete pack of a table, or nothing where there is none.
pub open spec fn complete_pack(objects: Seq<CatalogObject>, table_id: u128) -> Result<
    Option<Seq<AcceleratorView>>,
    ErrorView,
> {
    match sealed_table_refusal(objects, table_id) {
        Some(e) => Err(e),
        None => {
            let ids = index_ids_of(objects, table_id);
            if ids.len() == 0 {
                Ok(None)
            } else {
                accelerators_from(objects, table_id, ids, 0)
            }
        },
    }
}

pub open spec fn accelerator_views(specs: Seq<AcceleratorSpec>) -> Seq<AcceleratorView> {
    specs.map_values(|a: AcceleratorSpec| a@)
}

/// Why the pack of a table cannot be resolved.
pub open spec fn pack_refusal(objects: Seq<CatalogObject>, table_id: u128) -> Option<ErrorView> {
    match complete_pack(objects, table_id) {
        Err(e) => Some(e),
        Ok(_) => None,
    }
}

/// Whether a pack is the complete one of a table, or there is none.
pub open spec fn is_complete_pack(
    objects: Seq<CatalogObject>,
    table_id: u128,
    pack: Option<Vec<AcceleratorSpec>>,
) -> bool {
    complete_pack(objects, table_id) == Ok::<Option<Seq<AcceleratorView>>, ErrorView>(
        match pack {
            Some(specs) => Some(accelerator_views(specs@)),
            None => None,
        },
    )
}

/// Resolves the complete pack of a table. A pack with some of the indexes
/// missing is never built: readers would take it for all of them.
pub fn table_accelerators(objects: &Vec<CatalogObject>, table_id: u128) -> (r: Result<
    Option<Vec<AcceleratorSpec>>,
    Error,
>)
    ensures
        refusal(r) == pack_refusal(objects@, table_id),
        r matches Ok(pack) ==> is_complete_pack(objects@, table_id, pack),
{
    let table: &CatalogObject = match find_object(objects, table_id) {
        Some(t) => t,
        None => {
            return Err(Error::internal("sealed table is absent from logical catalog"));
        },
    };
    let ids: &Vec<u128> = match &table.payload {
        CatalogPayload::Table { index_ids, .. } => index_ids,
        _ => {
            return Err(Error::internal("sealed catalog object is not a table"));
        },
    };
    if ids.len() == 0 {
        return Ok(None);
    }
    let mut pack: Vec<AcceleratorSpec> = Vec::new();
    let mut i: usize = 0;
    assert(accelerator_views(pack@) =~= Seq::<AcceleratorView>::empty());
    proof {
        if let Ok(Some(rest)) = accelerators_from(objects@, table_id, ids@, 0) {
            assert(accelerator_views(pack@) + rest =~= rest);
        }
    }
    while i < ids.len()
        invariant
            0 <= i <= ids@.len(),
            complete_pack(objects@, table_id) == match accelerators_from(
                objects@,
                table_id,
                ids@,
                i as int,
            ) {
                Err(e) => Err::<Option<Seq<AcceleratorView>>, ErrorView>(e),
                Ok(None) => Ok(None),
                Ok(Some(rest)) => Ok(Some(accelerator_views(pack@) + rest)),
            },
        decreases ids@.len() - i,
    {
        let ghost done = accelerator_views(pack@);
        match resolve_accelerator(objects, table_id, ids[i]) {
            Err(e) => {
                return Err(e);
            },
            Ok(None) => {
                return Ok(None);
            },
            Ok(Some(accelerator)) => {
                let ghost seen = accelerator@;
                pack.push(accelerator);
                proof {
                    assert(accelerator_views(pack@) =~= done.push(seen));
                    if let Ok(Some(rest)) = accelerators_from(objects@, table_id, ids@, i + 1) {
                        assert(done + (seq![seen] + rest) =~= accelerator_views(pack@) + rest);
                    }
                }
            },
        }
        i = i + 1;
    }
    assert(accelerator_views(pack@) + Seq::<AcceleratorView>::empty() =~= accelerator_views(pack@));
    Ok(Some(pack))
}

/// The digest of an index's definition.
pub open spec fn index_digest(objects: Seq<CatalogObject>, id: u128) -> Seq<u8> {
    sha256(definition_bytes(object_of(objects, id, 0)->Some_0.payload->Index_0.definition))
}

/// A pack has an accelerator for every index of the table, in its order, each
/// bound to its own index's definition.
pub proof fn law_pack_is_complete(
    objects: Seq<CatalogObject>,
    table_id: u128,
    ids: Seq<u128>,
    i: int,
)
    requires
        0 <= i <= ids.len(),
        accelerators_from(objects, table_id, ids, i) matches Ok(Some(_)),
    ensures
        accelerators_from(objects, table_id, ids, i)->Ok_0->Some_0.len() == ids.len() - i,
        forall|k: int|
            i <= k < ids.len() ==> (#[trigger] accelerators_from(
                objects,
                table_id,
                ids,
                i,
            )->Ok_0->Some_0[k - i]).index_id == ids[k],
        forall|k: int|
            i <= k < ids.len() ==> (#[trigger] accelerators_from(
                objects,
                table_id,
                ids,
                i,
            )->Ok_0->Some_0[k - i]).definition_sha256 == index_digest(objects, ids[k]),
    decreases ids.len() - i,
{
    if i < ids.len() {
        law_pack_is_complete(objects, table_id, ids, i + 1);
        let all = accelerators_from(objects, table_id, ids, i)->Ok_0->Some_0;
        let rest = accelerators_from(objects, table_id, ids, i + 1)->Ok_0->Some_0;
        assert forall|k: int| i <= k < ids.len() implies (#[trigger] all[k - i]).index_id
            == ids[k] && all[k - i].definition_sha256 == index_digest(objects, ids[k]) by {
            if k > i {
                assert(all[k - i] == rest[k - (i + 1)]);
            }
        }
    }
}

} // verus!
