//! The digest that binds a physical index to its definition.
use crate::bytes::le64;
use crate::bytes::le64_bytes;
use crate::checksum::sha256;
use crate::checksum::sha256_of;
use vstd::prelude::*;
use vstd::utf8::encode_utf8;

verus! {

/// Parameters of a vector index, each as its little-endian bytes.
#[derive(Debug)]
pub struct HnswDefinition {
    pub m: Vec<u8>,
    pub ef_construction: Vec<u8>,
    pub ef_search: Vec<u8>,
    pub distance_metric_tag: Vec<u8>,
}

/// An edge by which an index refers to another object. Numbers are
/// little-endian bytes.
#[derive(Debug)]
pub struct EdgeDefinition {
    pub kind_tag: Vec<u8>,
    /// Whether an edge of this kind is a dependency.
    pub is_dependency: bool,
    pub ordinal: Vec<u8>,
    pub target_id: [u8; 16],
    /// Revision of the target, where the catalog has it.
    pub target_revision: Option<Vec<u8>>,
}

/// What the digest of an index covers. Numbers are little-endian bytes.
#[derive(Debug)]
pub struct IndexDefinition {
    pub revision: Vec<u8>,
    pub access_method_tag: Vec<u8>,
    pub unique: bool,
    pub key_column_ids: Vec<[u8; 16]>,
    pub include_column_ids: Vec<[u8; 16]>,
    pub expression_sql: Option<String>,
    pub predicate_sql: Option<String>,
    pub hnsw: Option<HnswDefinition>,
    /// Every edge that leaves the index, in the order of the catalog.
    pub edges: Vec<EdgeDefinition>,
}

pub open spec fn count_bytes(n: nat) -> Seq<u8> {
    le64(n as u64)
}

pub open spec fn flat_ids(ids: Seq<[u8; 16]>, n: int) -> Seq<u8>
    decreases n,
{
    if n <= 0 {
        Seq::empty()
    } else {
        flat_ids(ids, n - 1) + ids[n - 1]@
    }
}

/// Identities behind their number.
pub open spec fn id_bytes(ids: Seq<[u8; 16]>) -> Seq<u8> {
    count_bytes(ids.len()) + flat_ids(ids, ids.len() as int)
}

/// A text behind a mark and its length; a lone mark where there is none.
pub open spec fn text_bytes(text: Option<String>) -> Seq<u8> {
    match text {
        Some(t) => seq![1u8] + count_bytes(encode_utf8(t@).len()) + encode_utf8(t@),
        None => seq![0u8],
    }
}

pub open spec fn hnsw_bytes(hnsw: Option<HnswDefinition>) -> Seq<u8> {
    match hnsw {
        Some(h) => seq![1u8] + h.m@ + h.ef_construction@ + h.ef_search@ + h.distance_metric_tag@,
        None => seq![0u8],
    }
}

/// Revision of a target; zero, as wide as a revision is, where the catalog
/// lost it.
pub open spec fn target_bytes(revision: Option<Vec<u8>>, width: nat) -> Seq<u8> {
    match revision {
        Some(r) => r@,
        None => Seq::new(width, |i: int| 0u8),
    }
}

pub open spec fn dependency_bytes(e: EdgeDefinition, width: nat) -> Seq<u8> {
    e.kind_tag@ + e.ordinal@ + e.target_id@ + target_bytes(e.target_revision, width)
}

/// How many of the first `n` edges are dependencies.
pub open spec fn dependency_count(edges: Seq<EdgeDefinition>, n: int) -> nat
    decreases n,
{
    if n <= 0 {
        0
    } else {
        dependency_count(edges, n - 1) + if edges[n - 1].is_dependency {
            1nat
        } else {
            0nat
        }
    }
}

/// The dependencies among the first `n` edges.
pub open spec fn flat_dependencies(edges: Seq<EdgeDefinition>, width: nat, n: int) -> Seq<u8>
    decreases n,
{
    if n <= 0 {
        Seq::empty()
    } else if edges[n - 1].is_dependency {
        flat_dependencies(edges, width, n - 1) + dependency_bytes(edges[n - 1], width)
    } else {
        flat_dependencies(edges, width, n - 1)
    }
}

/// The text before everything else, with a closing zero byte.
pub open spec fn domain_bytes() -> Seq<u8> {
    encode_utf8("RADIXDB-INDEX-DEFINITION"@) + seq![0u8]
}

pub open spec fn flag_byte(b: bool) -> u8 {
    if b {
        1
    } else {
        0
    }
}

/// The bytes whose digest identifies a definition.
pub open spec fn definition_bytes(d: IndexDefinition) -> Seq<u8> {
    domain_bytes() + d.revision@ + d.access_method_tag@ + seq![flag_byte(d.unique)] + id_bytes(
        d.key_column_ids@,
    ) + id_bytes(d.include_column_ids@) + text_bytes(d.expression_sql) + text_bytes(
        d.predicate_sql,
    ) + hnsw_bytes(d.hnsw) + count_bytes(
        dependency_count(d.edges@, d.edges@.len() as int),
    ) + flat_dependencies(d.edges@, d.revision@.len(), d.edges@.len() as int)
}

fn put(out: &mut Vec<u8>, bytes: &Vec<u8>)
    ensures
        final(out)@ == old(out)@ + bytes@,
{
    out.extend_from_slice(bytes.as_slice());
    assert(out@ =~= old(out)@ + bytes@);
}

fn put_count(out: &mut Vec<u8>, n: usize)
    ensures
        final(out)@ == old(out)@ + count_bytes(n as nat),
{
    let mut bytes: Vec<u8> = le64_bytes(n as u64);
    out.append(&mut bytes);
    assert(out@ =~= old(out)@ + count_bytes(n as nat));
}

fn put_id(out: &mut Vec<u8>, id: &[u8; 16])
    ensures
        final(out)@ == old(out)@ + id@,
{
    let ghost before = out@;
    let mut i: usize = 0;
    while i < 16
        invariant
            0 <= i <= 16,
            out@ == before + id@.take(i as int),
        decreases 16 - i,
    {
        out.push(id[i]);
        i = i + 1;
        assert(out@ =~= before + id@.take(i as int));
    }
    assert(id@.take(16) =~= id@);
}

fn put_ids(out: &mut Vec<u8>, ids: &Vec<[u8; 16]>)
    ensures
        final(out)@ == old(out)@ + id_bytes(ids@),
{
    put_count(out, ids.len());
    let ghost before = out@;
    let mut i: usize = 0;
    assert(out@ =~= before + flat_ids(ids@, 0));
    while i < ids.len()
        invariant
            0 <= i <= ids@.len(),
            out@ == before + flat_ids(ids@, i as int),
        decreases ids@.len() - i,
    {
        put_id(out, &ids[i]);
        i = i + 1;
        assert(out@ =~= before + flat_ids(ids@, i as int));
    }
    assert(out@ =~= old(out)@ + id_bytes(ids@));
}

fn put_text(out: &mut Vec<u8>, text: &Option<String>)
    ensures
        final(out)@ == old(out)@ + text_bytes(*text),
{
    match text {
        Some(t) => {
            out.push(1);
            let bytes: Vec<u8> = t.as_str().as_bytes_vec();
            put_count(out, bytes.len());
            put(out, &bytes);
        },
        None => {
            out.push(0);
        },
    }
    assert(out@ =~= old(out)@ + text_bytes(*text));
}

fn put_target(out: &mut Vec<u8>, revision: &Option<Vec<u8>>, width: usize)
    ensures
        final(out)@ == old(out)@ + target_bytes(*revision, width as nat),
{
    match revision {
        Some(bytes) => {
            put(out, bytes);
        },
        None => {
            let mut i: usize = 0;
            while i < width
                invariant
                    0 <= i <= width,
                    out@ =~= old(out)@ + Seq::new(i as nat, |k: int| 0u8),
                decreases width - i,
            {
                out.push(0);
                i = i + 1;
            }
        },
    }
}

/// The bytes of a definition.
pub fn definition_message(d: &IndexDefinition) -> (out: Vec<u8>)
    ensures
        out@ == definition_bytes(*d),
{
    let mut out: Vec<u8> = "RADIXDB-INDEX-DEFINITION".as_bytes_vec();
    out.push(0);
    assert(out@ =~= domain_bytes());
    put(&mut out, &d.revision);
    put(&mut out, &d.access_method_tag);
    let ghost head = out@;
    out.push(
        if d.unique {
            1
        } else {
            0
        },
    );
    assert(out@ =~= head + seq![flag_byte(d.unique)]);
    put_ids(&mut out, &d.key_column_ids);
    put_ids(&mut out, &d.include_column_ids);
    put_text(&mut out, &d.expression_sql);
    put_text(&mut out, &d.predicate_sql);
    let ghost before_hnsw = out@;
    match &d.hnsw {
        Some(h) => {
            out.push(1);
            put(&mut out, &h.m);
            put(&mut out, &h.ef_construction);
            put(&mut out, &h.ef_search);
            put(&mut out, &h.distance_metric_tag);
        },
        None => {
            out.push(0);
        },
    }
    assert(out@ =~= before_hnsw + hnsw_bytes(d.hnsw));
    let mut count: usize = 0;
    let mut body: Vec<u8> = Vec::new();
    let mut i: usize = 0;
    while i < d.edges.len()
        invariant
            0 <= count <= i <= d.edges@.len(),
            count == dependency_count(d.edges@, i as int),
            body@ == flat_dependencies(d.edges@, d.revision@.len(), i as int),
        decreases d.edges@.len() - i,
    {
        let edge: &EdgeDefinition = &d.edges[i];
        if edge.is_dependency {
            let ghost start = body@;
            put(&mut body, &edge.kind_tag);
            put(&mut body, &edge.ordinal);
            put_id(&mut body, &edge.target_id);
            put_target(&mut body, &edge.target_revision, d.revision.len());
            assert(body@ =~= start + dependency_bytes(*edge, d.revision@.len()));
            count = count + 1;
        }
        i = i + 1;
    }
    put_count(&mut out, count);
    put(&mut out, &body);
    out
}

/// Stable binding of an index to its definition. It does not depend on how
/// the catalog was serialised, and changes with the definition or anything
/// that the index declares to depend on.
pub fn index_definition_sha256(d: &IndexDefinition) -> (r: Vec<u8>)
    ensures
        r@ == sha256(definition_bytes(*d)),
        r@.len() == 32,
{
    let message: Vec<u8> = definition_message(d);
    sha256_of(&message)
}

} // verus!
