//! Publishing the indexes that a transaction created over sealed rows.
use super::catalog::accelerator_views;
use super::catalog::complete_pack;
use super::catalog::table_accelerators;
use super::catalog::AcceleratorSpec;
use super::catalog::AcceleratorView;
use super::catalog::CatalogObject;
use super::control::format_error;
use super::control::identity_refusal;
use super::control::publication_message;
use super::control::stages_catalog;
use super::control::validate_catalog_identity;
use super::control::CatalogMeta;
use super::control::ControlRecord;
use super::generation::assemble_generation;
use super::generation::generation_catalog;
use super::generation::is_generation;
use super::generation::GenerationRequest;
use super::generation::PlannedGeneration;
use super::manifests::manifests_refused;
use super::manifests::new_segments;
use super::segments::change_views;
use super::segments::with_index;
use super::segments::ArtifactRef;
use super::segments::ChangeView;
use super::segments::SegmentDescriptor;
use super::segments::TableSegmentChange;
use crate::error::first_refusal;
use crate::error::refusal;
use crate::error::Error;
use crate::error::ErrorView;
use crate::recovery::artifacts::SegmentKind;
use crate::schema::lemma_filter_push;
use crate::sort::lemma_names_push;
use crate::sort::names_of;
use crate::sort::sorted_unique_names;
use crate::sort::strictly_ascending_names;
use crate::text::eq_ignore_ascii_case;
use crate::text::lowercase_text;
use crate::text::same_ignoring_ascii_case;
use crate::text::same_text;
use crate::text::to_lowercase;
use crate::txn::order::string_views;
use vstd::prelude::*;
use vstd::string::StringExecFns;

verus! {

/// An index of the committed catalog.
#[derive(Debug, Clone, Copy, PartialEq, Eq, Structural)]
pub struct FoundIndex {
    pub id: u128,
    pub parent_id: Option<u128>,
}

/// An index that the transaction created, looked up in the committed catalog.
#[derive(Debug)]
pub struct CreatedIndex {
    pub table_name: String,
    /// The index, or the text of the fault of the lookup.
    pub found: Result<Option<FoundIndex>, String>,
}

/// A table that may have sealed rows to index.
#[derive(Debug)]
pub struct IndexedTable {
    /// Lowercase name.
    pub name: String,
    /// Identity, or the text of the fault in it.
    pub table_id: Result<u128, String>,
    /// All segments of the selected generation.
    pub segments: Vec<SegmentDescriptor>,
}

/// A table whose segments get a rebuilt pack.
#[derive(Debug)]
pub struct IndexCandidate {
    /// Position among the tables.
    pub table: usize,
    pub table_id: u128,
    pub requested_index_id: u128,
    /// The complete pack to build for each segment.
    pub accelerators: Vec<AcceleratorSpec>,
    pub segments: Vec<SegmentDescriptor>,
}

pub struct CandidateView {
    pub table: int,
    pub table_id: u128,
    pub requested_index_id: u128,
    pub accelerators: Seq<AcceleratorView>,
    pub segments: Seq<SegmentDescriptor>,
}

impl View for IndexCandidate {
    type V = CandidateView;

    open spec fn view(&self) -> CandidateView {
        CandidateView {
            table: self.table as int,
            table_id: self.table_id,
            requested_index_id: self.requested_index_id,
            accelerators: accelerator_views(self.accelerators@),
            segments: self.segments@,
        }
    }
}

pub open spec fn is_row_segment(s: SegmentDescriptor) -> bool {
    s.kind == SegmentKind::Rows
}

pub open spec fn row_segments(segments: Seq<SegmentDescriptor>) -> Seq<SegmentDescriptor> {
    segments.filter(|s: SegmentDescriptor| is_row_segment(s))
}

/// First table with a name.
pub open spec fn table_named(tables: Seq<IndexedTable>, name: Seq<char>, i: int) -> Option<int>
    decreases tables.len() - i,
{
    if i < 0 || i >= tables.len() {
        None
    } else if tables[i].name@ == name {
        Some(i)
    } else {
        table_named(tables, name, i + 1)
    }
}

/// Why a created index cannot be published.
pub open spec fn created_refusal(created: CreatedIndex, name: Seq<char>, table_id: u128) -> Option<
    ErrorView,
> {
    if !same_ignoring_ascii_case(created.table_name@, name) {
        None
    } else {
        match created.found {
            Err(text) => Some(ErrorView::Internal("catalog index lookup failed: "@ + text@)),
            Ok(found) => if found matches Some(f) && f.parent_id == Some(table_id) {
                None
            } else {
                Some(
                    ErrorView::Internal(
                        "pending CREATE INDEX is absent from the committed catalog"@,
                    ),
                )
            },
        }
    }
}

/// Smallest identity among the indexes created on a table.
pub open spec fn least_created(created: Seq<CreatedIndex>, name: Seq<char>, n: int) -> Option<u128>
    decreases n,
{
    if n <= 0 {
        None
    } else {
        let before = least_created(created, name, n - 1);
        if !same_ignoring_ascii_case(created[n - 1].table_name@, name) {
            before
        } else {
            let id = created[n - 1].found->Ok_0->Some_0.id;
            match before {
                Some(least) => if id < least {
                    Some(id)
                } else {
                    Some(least)
                },
                None => Some(id),
            }
        }
    }
}

/// Whether a pack has an accelerator for an index.
pub open spec fn builds_index(pack: Seq<AcceleratorView>, id: u128) -> bool {
    exists|k: int| 0 <= k < pack.len() && (#[trigger] pack[k]).index_id == id
}

/// What is to be rebuilt for a table, if anything.
pub open spec fn candidate_of(
    objects: Seq<CatalogObject>,
    name: Seq<char>,
    created: Seq<CreatedIndex>,
    tables: Seq<IndexedTable>,
) -> Result<Option<CandidateView>, ErrorView> {
    match table_named(tables, name, 0) {
        None => Ok(None),
        Some(at) => match tables[at].table_id {
            Err(text) => Err(ErrorView::Internal("invalid table catalog identity: "@ + text@)),
            Ok(table_id) => match complete_pack(objects, table_id) {
                Err(e) => Err(e),
                Ok(None) => Ok(None),
                Ok(Some(pack)) => match first_refusal(
                    0,
                    created.len() as int,
                    |k: int| created_refusal(created[k], name, table_id),
                ) {
                    Some(e) => Err(e),
                    None => match least_created(created, name, created.len() as int) {
                        None => Err(
                            ErrorView::Internal(
                                "INDEX backfill has no pending catalog identity"@,
                            ),
                        ),
                        Some(id) => if !builds_index(pack, id) {
                            Err(
                                ErrorView::Internal(
                                    "pending CREATE INDEX is absent from the complete accelerator pack"@,
                                ),
                            )
                        } else if row_segments(tables[at].segments@).len() == 0 {
                            Ok(None)
                        } else {
                            Ok(
                                Some(
                                    CandidateView {
                                        table: at,
                                        table_id,
                                        requested_index_id: id,
                                        accelerators: pack,
                                        segments: row_segments(tables[at].segments@),
                                    },
                                ),
                            )
                        },
                    },
                },
            },
        },
    }
}

fn find_table(tables: &Vec<IndexedTable>, name: &str) -> (r: Option<usize>)
    ensures
        match r {
            Some(at) => at < tables@.len() && table_named(tables@, name@, 0) == Some(at as int),
            None => table_named(tables@, name@, 0) is None,
        },
{
    let mut i: usize = 0;
    while i < tables.len()
        invariant
            0 <= i <= tables@.len(),
            table_named(tables@, name@, 0) == table_named(tables@, name@, i as int),
        decreases tables@.len() - i,
    {
        if same_text(tables[i].name.as_str(), name) {
            return Some(i);
        }
        i = i + 1;
    }
    None
}

fn rows_only(segments: &Vec<SegmentDescriptor>) -> (r: Vec<SegmentDescriptor>)
    ensures
        r@ == row_segments(segments@),
{
    let ghost keep = |s: SegmentDescriptor| is_row_segment(s);
    let mut out: Vec<SegmentDescriptor> = Vec::new();
    let mut i: usize = 0;
    assert(segments@.take(0).filter(keep) =~= Seq::<SegmentDescriptor>::empty()) by {
        reveal(Seq::filter);
    }
    while i < segments.len()
        invariant
            0 <= i <= segments@.len(),
            keep == (|s: SegmentDescriptor| is_row_segment(s)),
            out@ == segments@.take(i as int).filter(keep),
        decreases segments@.len() - i,
    {
        proof {
            lemma_filter_push(segments@, i as int, keep);
        }
        if segments[i].kind == SegmentKind::Rows {
            out.push(segments[i]);
        }
        i = i + 1;
    }
    assert(segments@.take(i as int) =~= segments@);
    out
}

fn pack_has(pack: &Vec<AcceleratorSpec>, id: u128) -> (r: bool)
    ensures
        r == builds_index(accelerator_views(pack@), id),
{
    let ghost views = accelerator_views(pack@);
    let mut i: usize = 0;
    while i < pack.len()
        invariant
            0 <= i <= pack@.len(),
            views == accelerator_views(pack@),
            forall|k: int| 0 <= k < i ==> (#[trigger] views[k]).index_id != id,
        decreases pack@.len() - i,
    {
        assert(views[i as int] == pack@[i as int]@);
        if pack[i].index_id == id {
            return true;
        }
        i = i + 1;
    }
    false
}

/// The smallest identity of the indexes created on a table, all of which the
/// committed catalog must have.
fn requested_index(created: &Vec<CreatedIndex>, name: &str, table_id: u128) -> (r: Result<
    Option<u128>,
    Error,
>)
    ensures
        refusal(r) == first_refusal(
            0,
            created@.len() as int,
            |k: int| created_refusal(created@[k], name@, table_id),
        ),
        r matches Ok(least) ==> least == least_created(
            created@,
            name@,
            created@.len() as int,
        ),
{
    let ghost n = created@.len() as int;
    let ghost check = |k: int| created_refusal(created@[k], name@, table_id);
    let mut least: Option<u128> = None;
    let mut k: usize = 0;
    while k < created.len()
        invariant
            0 <= k <= created@.len(),
            n == created@.len(),
            check == (|k: int| created_refusal(created@[k], name@, table_id)),
            first_refusal(0, n, check) == first_refusal(k as int, n, check),
            least == least_created(created@, name@, k as int),
        decreases created@.len() - k,
    {
        if eq_ignore_ascii_case(created[k].table_name.as_str(), name) {
            let id: u128 = match &created[k].found {
                Err(text) => {
                    assert(check(k as int) is Some);
                    return Err(
                        Error::Internal {
                            message: String::from_str("catalog index lookup failed: ").concat(
                                text.as_str(),
                            ),
                        },
                    );
                },
                Ok(found) => {
                    let owned: Option<u128> = match found {
                        Some(f) => match f.parent_id {
                            Some(parent) => if parent == table_id {
                                Some(f.id)
                            } else {
                                None
                            },
                            None => None,
                        },
                        None => None,
                    };
                    match owned {
                        Some(id) => id,
                        None => {
                            assert(check(k as int) is Some);
                            return Err(
                                Error::internal(
                                    "pending CREATE INDEX is absent from the committed catalog",
                                ),
                            );
                        },
                    }
                },
            };
            assert(check(k as int) is None);
            least = match least {
                Some(held) => if id < held {
                    Some(id)
                } else {
                    Some(held)
                },
                None => Some(id),
            };
        } else {
            assert(check(k as int) is None);
        }
        k = k + 1;
    }
    Ok(least)
}

fn candidate(
    objects: &Vec<CatalogObject>,
    name: &str,
    created: &Vec<CreatedIndex>,
    tables: &Vec<IndexedTable>,
) -> (r: Result<Option<IndexCandidate>, Error>)
    ensures
        match r {
            Ok(Some(c)) => candidate_of(objects@, name@, created@, tables@) == Ok::<
                Option<CandidateView>,
                ErrorView,
            >(Some(c@)),
            Ok(None) => candidate_of(objects@, name@, created@, tables@) == Ok::<
                Option<CandidateView>,
                ErrorView,
            >(None),
            Err(e) => candidate_of(objects@, name@, created@, tables@) == Err::<
                Option<CandidateView>,
                ErrorView,
            >(e@),
        },
{
    let at: usize = match find_table(tables, name) {
        Some(at) => at,
        None => {
            return Ok(None);
        },
    };
    let table_id: u128 = match &tables[at].table_id {
        Ok(id) => *id,
        Err(text) => {
            return Err(
                Error::Internal {
                    message: String::from_str("invalid table catalog identity: ").concat(
                        text.as_str(),
                    ),
                },
            );
        },
    };
    let pack: Vec<AcceleratorSpec> = match table_accelerators(objects, table_id) {
        Err(e) => {
            return Err(e);
        },
        Ok(None) => {
            return Ok(None);
        },
        Ok(Some(pack)) => pack,
    };
    let requested_index_id: u128 = match requested_index(created, name, table_id) {
        Err(e) => {
            return Err(e);
        },
        Ok(None) => {
            return Err(Error::internal("INDEX backfill has no pending catalog identity"));
        },
        Ok(Some(id)) => id,
    };
    if !pack_has(&pack, requested_index_id) {
        return Err(
            Error::internal("pending CREATE INDEX is absent from the complete accelerator pack"),
        );
    }
    let segments: Vec<SegmentDescriptor> = rows_only(&tables[at].segments);
    if segments.len() == 0 {
        return Ok(None);
    }
    Ok(
        Some(
            IndexCandidate { table: at, table_id, requested_index_id, accelerators: pack, segments },
        ),
    )
}

/// Candidates for the names from `i` on, up to the first refusal.
pub open spec fn candidates_from(
    objects: Seq<CatalogObject>,
    names: Seq<String>,
    created: Seq<CreatedIndex>,
    tables: Seq<IndexedTable>,
    i: int,
) -> Result<Seq<CandidateView>, ErrorView>
    decreases names.len() - i,
{
    if i < 0 || i >= names.len() {
        Ok(Seq::empty())
    } else {
        match candidate_of(objects, names[i]@, created, tables) {
            Err(e) => Err(e),
            Ok(first) => match candidates_from(objects, names, created, tables, i + 1) {
                Err(e) => Err(e),
                Ok(rest) => Ok(
                    match first {
                        Some(c) => seq![c] + rest,
                        None => rest,
                    },
                ),
            },
        }
    }
}

pub open spec fn candidate_views(candidates: Seq<IndexCandidate>) -> Seq<CandidateView> {
    candidates.map_values(|c: IndexCandidate| c@)
}

/// Lowercase names of the tables that got an index.
pub open spec fn created_tables(created: Seq<CreatedIndex>, n: int) -> Set<Seq<char>>
    decreases n,
{
    if n <= 0 {
        Set::empty()
    } else {
        created_tables(created, n - 1).insert(lowercase_text(created[n - 1].table_name@))
    }
}

/// Those names, each once and in order.
pub open spec fn lists_created(names: Seq<String>, created: Seq<CreatedIndex>) -> bool {
    strictly_ascending_names(names) && names_of(names) == created_tables(
        created,
        created.len() as int,
    )
}

fn created_names(created: &Vec<CreatedIndex>) -> (names: Vec<String>)
    ensures
        lists_created(names@, created@),
{
    let mut raw: Vec<String> = Vec::new();
    assert(names_of(raw@) =~= Set::<Seq<char>>::empty());
    let mut i: usize = 0;
    while i < created.len()
        invariant
            0 <= i <= created@.len(),
            names_of(raw@) == created_tables(created@, i as int),
        decreases created@.len() - i,
    {
        let name: String = to_lowercase(created[i].table_name.as_str());
        proof {
            lemma_names_push(raw@, name);
        }
        raw.push(name);
        i = i + 1;
    }
    sorted_unique_names(raw)
}

/// What an index publication is decided on.
#[derive(Debug)]
pub struct IndexRequest {
    pub created: Vec<CreatedIndex>,
    /// Whether the database is kept in files.
    pub persistent: bool,
    pub publisher: bool,
    pub control: ControlRecord,
    pub target_generation: Result<u64, String>,
    /// The pinned catalog, or the text of the fault of the pin.
    pub meta: Result<CatalogMeta, String>,
    /// The objects of the pinned catalog.
    pub objects: Vec<CatalogObject>,
    pub tables: Vec<IndexedTable>,
}

/// Why no index may be published; nothing where there may be work.
pub open spec fn index_gate(q: IndexRequest) -> Option<ErrorView> {
    match q.target_generation {
        Err(text) => Some(publication_message(text@)),
        Ok(_) => match q.meta {
            Err(text) => Some(ErrorView::Internal("catalog pin failed: "@ + text@)),
            Ok(meta) => identity_refusal(meta, q.control),
        },
    }
}

pub open spec fn has_index_work(q: IndexRequest) -> bool {
    q.created@.len() > 0 && q.persistent && q.publisher
}

/// Whether a list of candidates is the one for a request.
pub open spec fn is_candidate_list(
    q: IndexRequest,
    names: Seq<String>,
    r: Result<Seq<CandidateView>, ErrorView>,
) -> bool {
    lists_created(names, q.created@) && candidates_from(
        q.objects@,
        names,
        q.created@,
        q.tables@,
        0,
    ) == r
}

pub open spec fn candidates_listed(
    q: IndexRequest,
    r: Result<Seq<CandidateView>, ErrorView>,
) -> bool {
    exists|names: Seq<String>| #[trigger] is_candidate_list(q, names, r)
}

/// Selects the tables whose sealed segments get a rebuilt pack. Tables
/// without a complete pack, or without sealed rows, are passed over: what the
/// transaction built for them stays in use.
pub fn publish_transactional_indexes(q: &IndexRequest) -> (r: Result<Vec<IndexCandidate>, Error>)
    ensures
        if !has_index_work(*q) {
            r matches Ok(none) && none@.len() == 0
        } else {
            match index_gate(*q) {
                Some(e) => refusal(r) == Some(e),
                None => candidates_listed(
                    *q,
                    match r {
                        Ok(list) => Ok::<Seq<CandidateView>, ErrorView>(candidate_views(list@)),
                        Err(e) => Err(e@),
                    },
                ),
            }
        },
{
    if q.created.len() == 0 || !q.persistent || !q.publisher {
        return Ok(Vec::new());
    }
    match &q.target_generation {
        Ok(_) => {},
        Err(text) => {
            return Err(format_error(text.as_str()));
        },
    }
    match &q.meta {
        Err(text) => {
            return Err(
                Error::Internal {
                    message: String::from_str("catalog pin failed: ").concat(text.as_str()),
                },
            );
        },
        Ok(meta) => {
            match validate_catalog_identity(*meta, q.control) {
                Err(e) => {
                    return Err(e);
                },
                Ok(()) => {},
            }
        },
    }
    let names: Vec<String> = created_names(&q.created);
    let mut list: Vec<IndexCandidate> = Vec::new();
    assert(candidate_views(list@) =~= Seq::<CandidateView>::empty());
    proof {
        if let Ok(rest) = candidates_from(q.objects@, names@, q.created@, q.tables@, 0) {
            assert(candidate_views(list@) + rest =~= rest);
        }
    }
    let mut i: usize = 0;
    while i < names.len()
        invariant
            0 <= i <= names@.len(),
            has_index_work(*q),
            index_gate(*q) is None,
            lists_created(names@, q.created@),
            candidates_from(q.objects@, names@, q.created@, q.tables@, 0) == match candidates_from(
                q.objects@,
                names@,
                q.created@,
                q.tables@,
                i as int,
            ) {
                Err(e) => Err::<Seq<CandidateView>, ErrorView>(e),
                Ok(rest) => Ok(candidate_views(list@) + rest),
            },
        decreases names@.len() - i,
    {
        let ghost done = candidate_views(list@);
        match candidate(&q.objects, names[i].as_str(), &q.created, &q.tables) {
            Err(e) => {
                assert(is_candidate_list(
                    *q,
                    names@,
                    Err::<Seq<CandidateView>, ErrorView>(e@),
                ));
                return Err(e);
            },
            Ok(None) => {},
            Ok(Some(c)) => {
                let ghost seen = c@;
                list.push(c);
                proof {
                    assert(candidate_views(list@) =~= done.push(seen));
                    if let Ok(rest) = candidates_from(q.objects@, names@, q.created@, q.tables@, i + 1) {
                        assert(done + (seq![seen] + rest) =~= candidate_views(list@) + rest);
                    }
                }
            },
        }
        i = i + 1;
    }
    assert(candidate_views(list@) + Seq::<CandidateView>::empty() =~= candidate_views(list@));
    assert(is_candidate_list(
        *q,
        names@,
        Ok::<Seq<CandidateView>, ErrorView>(candidate_views(list@)),
    ));
    Ok(list)
}

pub open spec fn indexed_segments(
    segments: Seq<SegmentDescriptor>,
    rebuilt: Seq<ArtifactRef>,
) -> Seq<SegmentDescriptor> {
    Seq::new(
        segments.len(),
        |i: int| SegmentDescriptor { index: Some(rebuilt[i]), ..segments[i] },
    )
}

/// The change of a table that gets rebuilt packs.
pub open spec fn pack_change(candidate: CandidateView, rebuilt: Seq<ArtifactRef>) -> ChangeView {
    ChangeView {
        table_id: candidate.table_id,
        additions: indexed_segments(candidate.segments, rebuilt),
        removals: candidate.segments.map_values(|s: SegmentDescriptor| s.id),
        tombstone_ack: None,
    }
}

/// The change that puts the rebuilt packs in place: every segment is listed
/// again under its identity, with its new pack.
pub fn index_change(candidate: &IndexCandidate, rebuilt: &Vec<ArtifactRef>) -> (
    r: TableSegmentChange)
    requires
        rebuilt@.len() == candidate.segments@.len(),
    ensures
        r@ == pack_change(candidate@, rebuilt@),
{
    let mut additions: Vec<SegmentDescriptor> = Vec::new();
    let mut removals: Vec<u128> = Vec::new();
    let mut i: usize = 0;
    while i < candidate.segments.len()
        invariant
            0 <= i <= candidate.segments@.len(),
            rebuilt@.len() == candidate.segments@.len(),
            additions@.len() == i,
            removals@.len() == i,
            forall|k: int|
                0 <= k < i ==> #[trigger] additions@[k] == (SegmentDescriptor {
                    index: Some(rebuilt@[k]),
                    ..candidate.segments@[k]
                }),
            forall|k: int| 0 <= k < i ==> #[trigger] removals@[k] == candidate.segments@[k].id,
        decreases candidate.segments@.len() - i,
    {
        let segment: SegmentDescriptor = with_index(candidate.segments[i], rebuilt[i]);
        removals.push(segment.id);
        additions.push(segment);
        i = i + 1;
    }
    assert(additions@ =~= indexed_segments(candidate.segments@, rebuilt@));
    assert(removals@ =~= candidate.segments@.map_values(|s: SegmentDescriptor| s.id));
    TableSegmentChange { table_id: candidate.table_id, additions, removals, tombstone_ack: None }
}

/// The physical catalog has to be the one the packs were built for.
pub fn check_index_catalog(staged_generation: u64, catalog_generation: u64) -> (r: Result<
    (),
    Error,
>)
    ensures
        refusal(r) == (if staged_generation == catalog_generation {
            None
        } else {
            Some(
                ErrorView::Internal("DDL INDEX publication did not advance the physical catalog"@),
            )
        }),
{
    if staged_generation != catalog_generation {
        return Err(Error::internal("DDL INDEX publication did not advance the physical catalog"));
    }
    Ok(())
}

/// Changes of all candidates' tables.
pub open spec fn pack_changes(
    candidates: Seq<IndexCandidate>,
    rebuilt: Seq<Vec<ArtifactRef>>,
) -> Seq<ChangeView> {
    Seq::new(candidates.len(), |i: int| pack_change(candidates[i]@, rebuilt[i]@))
}

/// Puts the generation of rebuilt packs together, each candidate with one
/// pack per segment. The replay floor stays.
pub fn index_generation(
    q: &GenerationRequest,
    candidates: &Vec<IndexCandidate>,
    rebuilt: &Vec<Vec<ArtifactRef>>,
    target_generation: u64,
    built_for: u64,
) -> (r: Result<PlannedGeneration, Error>)
    requires
        rebuilt@.len() == candidates@.len(),
        forall|i: int|
            0 <= i < candidates@.len() ==> (#[trigger] rebuilt@[i])@.len()
                == candidates@[i].segments@.len(),
    ensures
        if generation_catalog(q.meta, q.control.catalog).generation != built_for {
            refusal(r) == Some(
                ErrorView::Internal("DDL INDEX publication did not advance the physical catalog"@),
            )
        } else {
            match r {
                Ok(g) => is_generation(
                    *q,
                    pack_changes(candidates@, rebuilt@),
                    target_generation,
                    q.control.wal_replay_floor,
                    g,
                ),
                Err(e) => manifests_refused(q.tables@, pack_changes(candidates@, rebuilt@), e@),
            }
        },
{
    let mut changes: Vec<TableSegmentChange> = Vec::new();
    let mut i: usize = 0;
    while i < candidates.len()
        invariant
            0 <= i <= candidates@.len(),
            rebuilt@.len() == candidates@.len(),
            forall|i: int|
                0 <= i < candidates@.len() ==> (#[trigger] rebuilt@[i])@.len()
                    == candidates@[i].segments@.len(),
            changes@.len() == i,
            forall|k: int|
                0 <= k < i ==> (#[trigger] changes@[k])@ == pack_change(
                    candidates@[k]@,
                    rebuilt@[k]@,
                ),
        decreases candidates@.len() - i,
    {
        changes.push(index_change(&candidates[i], &rebuilt[i]));
        i = i + 1;
    }
    assert(change_views(changes@) =~= pack_changes(candidates@, rebuilt@));
    let staged: u64 = if stages_catalog(q.meta, q.control.catalog) {
        q.meta.catalog_generation
    } else {
        q.control.catalog.generation
    };
    match check_index_catalog(staged, built_for) {
        Err(e) => {
            return Err(e);
        },
        Ok(()) => {},
    }
    assemble_generation(q, &changes, target_generation, q.control.wal_replay_floor)
}

/// Whether a published table swaps its transaction-built copies for fresh
/// ones that hold hot rows only.
pub fn swaps_cold_copies(manager: bool, cold_names: usize, store: bool) -> (r: Result<bool, Error>)
    ensures
        refusal(r) == (if !manager {
            Some(ErrorView::Internal("published INDEX table lost its segment manager"@))
        } else if cold_names > 0 && !store {
            Some(ErrorView::Internal("published INDEX table lost its version store"@))
        } else {
            None
        }),
        r matches Ok(swaps) ==> swaps == (cold_names > 0),
{
    if !manager {
        return Err(Error::internal("published INDEX table lost its segment manager"));
    }
    if cold_names == 0 {
        return Ok(false);
    }
    if !store {
        return Err(Error::internal("published INDEX table lost its version store"));
    }
    Ok(true)
}

/// Publishing packs replaces descriptors one for one: rows, row counts and
/// DATA artifacts stay as they are.
pub proof fn law_index_publication_keeps_data(
    segments: Seq<SegmentDescriptor>,
    rebuilt: Seq<ArtifactRef>,
    i: int,
)
    requires
        0 <= i < segments.len(),
    ensures
        indexed_segments(segments, rebuilt).len() == segments.len(),
        indexed_segments(segments, rebuilt)[i].id == segments[i].id,
        indexed_segments(segments, rebuilt)[i].data == segments[i].data,
        indexed_segments(segments, rebuilt)[i].row_count == segments[i].row_count,
        indexed_segments(segments, rebuilt)[i].max_transaction_id
            == segments[i].max_transaction_id,
        indexed_segments(segments, rebuilt)[i].tier == segments[i].tier,
{
}

/// No segment is new: the table's segment sequence does not move.
pub proof fn law_index_publication_adds_no_segment(
    candidate: CandidateView,
    rebuilt: Seq<ArtifactRef>,
    n: int,
)
    requires
        n <= candidate.segments.len(),
    ensures
        new_segments(pack_change(candidate, rebuilt), n) == 0,
    decreases n,
{
    if n > 0 {
        law_index_publication_adds_no_segment(candidate, rebuilt, n - 1);
        let change = pack_change(candidate, rebuilt);
        assert(change.removals[n - 1] == change.additions[n - 1].id);
        assert(change.removals.contains(change.additions[n - 1].id));
    }
}

/// A table whose rebuilt packs were published, and what installing them in
/// the runtime came to.
#[derive(Debug)]
pub struct InstalledTable {
    /// Lowercase name.
    pub name: String,
    pub has_manager: bool,
    /// Outcome of opening the packs and handing them to the manager.
    pub attached: Result<(), Error>,
    /// Indexes that hold sealed rows, which the packs now cover.
    pub cold_names: Vec<String>,
    pub has_store: bool,
    /// Outcome of replacing those indexes by ones over hot rows alone.
    pub replaced: Result<(), Error>,
}

pub open spec fn install_refusal(t: InstalledTable) -> Option<ErrorView> {
    if !t.has_manager {
        Some(ErrorView::Internal("published INDEX table lost its segment manager"@))
    } else if t.attached is Err {
        refusal(t.attached)
    } else if t.cold_names@.len() == 0 {
        None
    } else if !t.has_store {
        Some(ErrorView::Internal("published INDEX table lost its version store"@))
    } else {
        refusal(t.replaced)
    }
}

pub open spec fn install_check(tables: Seq<InstalledTable>) -> spec_fn(int) -> Option<ErrorView> {
    |i: int| install_refusal(tables[i])
}

/// Where installing stops: at the first table that fails, or behind the last.
pub open spec fn install_end(tables: Seq<InstalledTable>, i: int) -> int
    decreases tables.len() - i,
{
    if i >= tables.len() || install_refusal(tables[i]) is Some {
        i
    } else {
        install_end(tables, i + 1)
    }
}

/// Positions below `n` of the tables with indexes that packs took over from.
pub open spec fn taken_over(tables: Seq<InstalledTable>, n: int) -> Seq<usize>
    decreases n,
{
    if n <= 0 {
        Seq::empty()
    } else if tables[n - 1].cold_names@.len() > 0 {
        taken_over(tables, n - 1).push((n - 1) as usize)
    } else {
        taken_over(tables, n - 1)
    }
}

/// What installing published packs came to.
#[derive(Debug)]
pub struct InstalledIndexes {
    /// Positions of the tables all of whose cold names are unmarked. They
    /// stay so where a later table fails.
    pub unmarked: Vec<usize>,
    /// Names of the tables that were published.
    pub published: Result<Vec<String>, Error>,
}

/// Judges the installation of published packs, table after table.
pub fn install_published_indexes(tables: &Vec<InstalledTable>) -> (r: InstalledIndexes)
    ensures
        refusal(r.published) == first_refusal(0, tables@.len() as int, install_check(tables@)),
        r.published matches Ok(names) ==> string_views(names@) == tables@.map_values(
            |t: InstalledTable| t.name@,
        ),
        r.unmarked@ == taken_over(tables@, install_end(tables@, 0)),
{
    let ghost n = tables@.len() as int;
    let ghost check = install_check(tables@);
    let ghost all = tables@.map_values(|t: InstalledTable| t.name@);
    let mut unmarked: Vec<usize> = Vec::new();
    let mut names: Vec<String> = Vec::new();
    assert(string_views(names@) =~= all.take(0));
    let mut i: usize = 0;
    while i < tables.len()
        invariant
            0 <= i <= tables@.len(),
            n == tables@.len(),
            check == install_check(tables@),
            all == tables@.map_values(|t: InstalledTable| t.name@),
            first_refusal(0, n, check) == first_refusal(i as int, n, check),
            install_end(tables@, 0) == install_end(tables@, i as int),
            unmarked@ == taken_over(tables@, i as int),
            string_views(names@) == all.take(i as int),
        decreases tables@.len() - i,
    {
        let ghost found = check(i as int);
        let table: &InstalledTable = &tables[i];
        let fault: Option<Error> = if !table.has_manager {
            Some(Error::internal("published INDEX table lost its segment manager"))
        } else {
            match &table.attached {
                Err(e) => Some(e.duplicate()),
                Ok(()) => if table.cold_names.len() == 0 {
                    None
                } else if !table.has_store {
                    Some(Error::internal("published INDEX table lost its version store"))
                } else {
                    match &table.replaced {
                        Err(e) => Some(e.duplicate()),
                        Ok(()) => None,
                    }
                },
            }
        };
        match fault {
            Some(e) => {
                assert(found == Some(e@));
                return InstalledIndexes { unmarked, published: Err(e) };
            },
            None => {
                assert(found is None);
            },
        }
        if table.cold_names.len() > 0 {
            unmarked.push(i);
        }
        let ghost before = names@;
        names.push(table.name.clone());
        assert(string_views(names@) =~= string_views(before).push(table.name@));
        assert(all.take(i + 1) =~= all.take(i as int).push(table.name@));
        i = i + 1;
    }
    assert(all.take(i as int) =~= all);
    InstalledIndexes { unmarked, published: Ok(names) }
}

} // verus!
