//! How a requested index is built.
use crate::ddl::request::PendingIndexDefinition;
use crate::error::refusal;
use crate::error::Error;
use crate::error::ErrorView;
use crate::names::NameMap;
use crate::schema::column_position;
use crate::schema::DataType;
use crate::schema::IndexType;
use crate::schema::Schema;
use crate::text::eq_ignore_ascii_case;
use crate::text::lowercase_text;
use crate::text::same_ignoring_ascii_case;
use crate::text::to_lowercase;
use vstd::prelude::*;
use vstd::string::StringExecFns;

verus! {

/// The index that a column type gets where none is asked for.
pub open spec fn default_index_type(data_type: DataType) -> IndexType {
    match data_type {
        DataType::Vector => IndexType::Hnsw,
        DataType::Text | DataType::Json | DataType::Bytes => IndexType::Hash,
        DataType::Boolean => IndexType::Bitmap,
        _ => IndexType::BTree,
    }
}

/// The index that a definition on one column resolves to.
pub open spec fn resolved_type(
    definition: PendingIndexDefinition,
    schemas: Map<Seq<char>, Schema>,
) -> Option<IndexType> {
    let lower = lowercase_text(definition.table_name@);
    if !schemas.dom().contains(lower) {
        None
    } else {
        let schema = schemas[lower]@;
        match column_position(schema, definition.columns@[0]@) {
            None => None,
            Some(p) => Some(
                match definition.index_type {
                    Some(t) => t,
                    None => default_index_type(schema.columns[p].data_type),
                },
            ),
        }
    }
}

/// Whether the immutable publisher can populate an index from cold segments.
/// A unique index is validated before commit; partial and vector indexes
/// have their own runtime owners.
pub open spec fn can_defer(
    definition: PendingIndexDefinition,
    has_physical_generation: bool,
    has_segments: bool,
    schemas: Map<Seq<char>, Schema>,
) -> bool {
    &&& !definition.is_unique
    &&& !definition.is_partial
    &&& !definition.has_key_encoder
    &&& has_physical_generation
    &&& has_segments
    &&& if definition.columns@.len() > 1 {
        definition.index_type != Some(IndexType::Hnsw)
    } else {
        definition.columns@.len() == 1 && (resolved_type(definition, schemas) matches Some(t)
            && t != IndexType::Hnsw && t != IndexType::PrimaryKey)
    }
}

/// Whether the immutable publisher can populate an index from cold segments.
pub fn can_defer_cold_index_backfill(
    definition: &PendingIndexDefinition,
    has_physical_generation: bool,
    has_segments: bool,
    schemas: &NameMap<Schema>,
) -> (r: bool)
    requires
        schemas.wf(),
    ensures
        r == can_defer(*definition, has_physical_generation, has_segments, schemas@),
{
    if definition.is_unique || definition.is_partial || definition.has_key_encoder
        || !has_physical_generation || !has_segments {
        return false;
    }
    if definition.columns.len() > 1 {
        return match definition.index_type {
            Some(t) => t != IndexType::Hnsw,
            None => true,
        };
    }
    if definition.columns.len() == 0 {
        return false;
    }
    let lower: String = to_lowercase(definition.table_name.as_str());
    match schemas.get(lower.as_str()) {
        None => false,
        Some(schema) => match schema.get_column_index(definition.columns[0].as_str()) {
            None => false,
            Some(p) => {
                assert(schema@.columns[p as int] == schema.columns@[p as int]@);
                let resolved: IndexType = match definition.index_type {
                    Some(t) => t,
                    None => match schema.columns[p].data_type {
                        DataType::Vector => IndexType::Hnsw,
                        DataType::Text | DataType::Json | DataType::Bytes => IndexType::Hash,
                        DataType::Boolean => IndexType::Bitmap,
                        _ => IndexType::BTree,
                    },
                };
                resolved != IndexType::Hnsw && resolved != IndexType::PrimaryKey
            },
        },
    }
}

/// Distance that a vector index orders by.
#[derive(Debug, Clone, Copy, PartialEq, Eq, Structural)]
pub enum HnswDistanceMetric {
    L2,
    Cosine,
    Dot,
}

/// What has to be built.
#[derive(Debug, Clone, Copy, PartialEq, Eq, Structural)]
pub enum IndexBuild {
    WithKeyEncoder { index_type: IndexType },
    DeferredColdBackfill,
    Partial,
    Hnsw { m: usize, ef_construction: usize, ef_search: usize, metric: HnswDistanceMetric },
    Plain,
}

/// Links per node of a vector index where none are asked for.
pub const DEFAULT_HNSW_M: u16 = 16;

pub const DEFAULT_HNSW_EF_CONSTRUCTION: u16 = 200;

pub const DEFAULT_HNSW_EF_SEARCH: u16 = 50;

pub open spec fn or_default(value: Option<u16>, fallback: u16) -> usize {
    match value {
        Some(v) => v as usize,
        None => fallback as usize,
    }
}

pub open spec fn metric_of(code: Option<u8>) -> HnswDistanceMetric {
    match code {
        Some(1) => HnswDistanceMetric::Cosine,
        Some(2) => HnswDistanceMetric::Dot,
        _ => HnswDistanceMetric::L2,
    }
}

/// Why an index cannot be built at all; `table` is why its table cannot be
/// had.
pub open spec fn index_refusal(
    definition: PendingIndexDefinition,
    table: Option<ErrorView>,
) -> Option<ErrorView> {
    if definition.index_type == Some(IndexType::Hnsw) && (definition.hnsw_ef_construction == Some(
        0u16,
    ) || definition.hnsw_ef_search == Some(0u16)) {
        Some(
            ErrorView::InvalidArgument(
                "HNSW ef_construction and ef_search must be greater than zero"@,
            ),
        )
    } else if table is Some {
        table
    } else if definition.has_key_encoder && definition.is_partial {
        Some(
            ErrorView::NotSupported(
                "partial external operator-class indexes are not supported"@,
            ),
        )
    } else if definition.has_key_encoder && definition.index_type is None {
        Some(ErrorView::Internal("operator-class index lost its access method"@))
    } else {
        None
    }
}

pub open spec fn index_build(definition: PendingIndexDefinition, deferrable: bool) -> IndexBuild {
    if definition.has_key_encoder {
        IndexBuild::WithKeyEncoder { index_type: definition.index_type->Some_0 }
    } else if deferrable {
        IndexBuild::DeferredColdBackfill
    } else if definition.is_partial {
        IndexBuild::Partial
    } else if definition.index_type == Some(IndexType::Hnsw) {
        IndexBuild::Hnsw {
            m: or_default(definition.hnsw_m, DEFAULT_HNSW_M),
            ef_construction: or_default(
                definition.hnsw_ef_construction,
                DEFAULT_HNSW_EF_CONSTRUCTION,
            ),
            ef_search: or_default(definition.hnsw_ef_search, DEFAULT_HNSW_EF_SEARCH),
            metric: metric_of(definition.hnsw_distance_metric),
        }
    } else {
        IndexBuild::Plain
    }
}

fn value_or(value: Option<u16>, fallback: u16) -> (r: usize)
    ensures
        r == or_default(value, fallback),
{
    match value {
        Some(v) => v as usize,
        None => fallback as usize,
    }
}

/// Chooses the builder of a requested index. `table` is the outcome of looking
/// its table up.
pub fn choose_index_build(
    definition: &PendingIndexDefinition,
    table: Result<(), Error>,
    deferrable: bool,
) -> (r: Result<IndexBuild, Error>)
    ensures
        refusal(r) == index_refusal(*definition, refusal(table)),
        r matches Ok(build) ==> build == index_build(*definition, deferrable),
{
    let is_hnsw: bool = match definition.index_type {
        Some(t) => t == IndexType::Hnsw,
        None => false,
    };
    let empty_search: bool = match definition.hnsw_ef_search {
        Some(v) => v == 0,
        None => false,
    };
    let empty_construction: bool = match definition.hnsw_ef_construction {
        Some(v) => v == 0,
        None => false,
    };
    if is_hnsw && (empty_construction || empty_search) {
        return Err(
            Error::invalid_argument("HNSW ef_construction and ef_search must be greater than zero"),
        );
    }
    match table {
        Err(e) => {
            return Err(e);
        },
        Ok(()) => {},
    }
    if definition.has_key_encoder {
        if definition.is_partial {
            return Err(
                Error::NotSupported(
                    String::from_str("partial external operator-class indexes are not supported"),
                ),
            );
        }
        return match definition.index_type {
            Some(index_type) => Ok(IndexBuild::WithKeyEncoder { index_type }),
            None => Err(Error::internal("operator-class index lost its access method")),
        };
    }
    if deferrable {
        return Ok(IndexBuild::DeferredColdBackfill);
    }
    if definition.is_partial {
        return Ok(IndexBuild::Partial);
    }
    if is_hnsw {
        let metric: HnswDistanceMetric = match definition.hnsw_distance_metric {
            Some(code) => if code == 1 {
                HnswDistanceMetric::Cosine
            } else if code == 2 {
                HnswDistanceMetric::Dot
            } else {
                HnswDistanceMetric::L2
            },
            None => HnswDistanceMetric::L2,
        };
        return Ok(
            IndexBuild::Hnsw {
                m: value_or(definition.hnsw_m, DEFAULT_HNSW_M),
                ef_construction: value_or(
                    definition.hnsw_ef_construction,
                    DEFAULT_HNSW_EF_CONSTRUCTION,
                ),
                ef_search: value_or(definition.hnsw_ef_search, DEFAULT_HNSW_EF_SEARCH),
                metric,
            },
        );
    }
    Ok(IndexBuild::Plain)
}

/// The first touched table that a definition is about.
pub open spec fn first_touched(touched: Seq<String>, table_name: Seq<char>, i: int) -> bool {
    &&& 0 <= i < touched.len()
    &&& same_ignoring_ascii_case(touched[i]@, table_name)
    &&& forall|k: int| 0 <= k < i ==> !same_ignoring_ascii_case(#[trigger] touched[k]@, table_name)
}

/// Whether one of the definitions authorizes index changes on a table.
pub open spec fn authorizes(
    touched: Seq<String>,
    definitions: Seq<PendingIndexDefinition>,
    n: int,
    i: int,
) -> bool {
    exists|d: int|
        0 <= d < n && first_touched(touched, (#[trigger] definitions[d]).table_name@, i)
}

fn find_touched(touched: &Vec<String>, table_name: &str) -> (r: Option<usize>)
    ensures
        match r {
            Some(i) => first_touched(touched@, table_name@, i as int),
            None => forall|i: int| !#[trigger] first_touched(touched@, table_name@, i),
        },
{
    let mut i: usize = 0;
    while i < touched.len()
        invariant
            0 <= i <= touched@.len(),
            forall|k: int|
                0 <= k < i ==> !same_ignoring_ascii_case(#[trigger] touched@[k]@, table_name@),
        decreases touched@.len() - i,
    {
        if eq_ignore_ascii_case(touched[i].as_str(), table_name) {
            return Some(i);
        }
        i = i + 1;
    }
    None
}

/// Positions of the touched tables on which indexes may be changed while the
/// commit owns its fences, none of them twice.
pub fn authorized_index_stores(
    touched: &Vec<String>,
    definitions: &Vec<PendingIndexDefinition>,
) -> (out: Vec<usize>)
    ensures
        forall|i: int|
            authorizes(touched@, definitions@, definitions@.len() as int, i) <==> exists|a: int|
                0 <= a < out@.len() && #[trigger] out@[a] == i,
        forall|a: int, b: int|
            0 <= a < b < out@.len() ==> (#[trigger] out@[a]) != (#[trigger] out@[b]),
{
    let mut out: Vec<usize> = Vec::new();
    let mut d: usize = 0;
    while d < definitions.len()
        invariant
            0 <= d <= definitions@.len(),
            forall|i: int|
                #[trigger] authorizes(touched@, definitions@, d as int, i) <==> exists|a: int|
                    0 <= a < out@.len() && #[trigger] out@[a] == i,
            forall|a: int, b: int|
                0 <= a < b < out@.len() ==> (#[trigger] out@[a]) != (#[trigger] out@[b]),
        decreases definitions@.len() - d,
    {
        let ghost before = out@;
        let found: Option<usize> = find_touched(touched, definitions[d].table_name.as_str());
        match found {
            Some(i) => {
                let mut known: bool = false;
                let mut a: usize = 0;
                while a < out.len()
                    invariant
                        0 <= a <= out@.len(),
                        known == exists|b: int| 0 <= b < a && #[trigger] out@[b] == i,
                    decreases out@.len() - a,
                {
                    if out[a] == i {
                        known = true;
                    }
                    a = a + 1;
                }
                if !known {
                    out.push(i);
                }
            },
            None => {},
        }
        proof {
            let name = definitions@[d as int].table_name@;
            assert forall|i: int|
                #[trigger] authorizes(touched@, definitions@, d + 1, i) <==> exists|a: int|
                    0 <= a < out@.len() && #[trigger] out@[a] == i by {
                if authorizes(touched@, definitions@, d + 1, i) {
                    let e = choose|e: int|
                        0 <= e < d + 1 && first_touched(
                            touched@,
                            (#[trigger] definitions@[e]).table_name@,
                            i,
                        );
                    if e < d {
                        assert(authorizes(touched@, definitions@, d as int, i));
                        let a = choose|a: int| 0 <= a < before.len() && #[trigger] before[a] == i;
                        assert(out@[a] == i);
                    } else {
                        assert(first_touched(touched@, name, i));
                        assert(found is Some);
                        let j = found->Some_0 as int;
                        assert(first_touched(touched@, name, j));
                        assert(i == j);
                        if out@.len() > before.len() {
                            assert(out@[before.len() as int] == i);
                        } else {
                            let a = choose|a: int|
                                0 <= a < before.len() && #[trigger] before[a] == i;
                            assert(out@[a] == i);
                        }
                    }
                }
                if exists|a: int| 0 <= a < out@.len() && #[trigger] out@[a] == i {
                    let a = choose|a: int| 0 <= a < out@.len() && #[trigger] out@[a] == i;
                    if a < before.len() {
                        assert(before[a] == i);
                        assert(authorizes(touched@, definitions@, d as int, i));
                        let e = choose|e: int|
                            0 <= e < d && first_touched(
                                touched@,
                                (#[trigger] definitions@[e]).table_name@,
                                i,
                            );
                        assert(first_touched(touched@, definitions@[e].table_name@, i));
                    } else {
                        assert(first_touched(touched@, definitions@[d as int].table_name@, i));
                    }
                }
            }
        }
        d = d + 1;
    }
    out
}

} // verus!
