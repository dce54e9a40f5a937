//! Segment membership of tables, and how a publication changes it.
use super::control::identity_refusal;
use super::control::is_selected;
use super::control::stale_abort;
use super::control::stale_publication;
use super::control::validate_catalog_identity;
use super::control::CatalogMeta;
use super::control::ControlRecord;
use crate::error::first_refusal;
use crate::error::refusal;
use crate::error::Error;
use crate::error::ErrorView;
use crate::num::spec_max;
use crate::num::spec_min;
use crate::recovery::artifacts::SegmentKind;
use crate::recovery::artifacts::SegmentTier;
use crate::sort::is_order;
use crate::sort::is_permutation;
use crate::sort::is_sorted;
use crate::sort::lemma_permutation;
use crate::sort::order_of;
use crate::sort::sorted;
use vstd::prelude::*;
use vstd::string::StringExecFns;

verus! {

/// A published artifact.
#[derive(Debug, Clone, Copy, PartialEq, Eq, Structural)]
pub struct ArtifactRef {
    pub id: u128,
    pub byte_length: u64,
}

/// A segment of a table's manifest.
#[derive(Debug, Clone, Copy, PartialEq, Eq, Structural)]
pub struct SegmentDescriptor {
    pub id: u128,
    pub kind: SegmentKind,
    pub tier: SegmentTier,
    pub min_transaction_id: u64,
    pub max_transaction_id: u64,
    pub row_count: u64,
    pub first_row_id: u64,
    pub last_row_id: u64,
    pub data: ArtifactRef,
    pub index: Option<ArtifactRef>,
}

/// What a publication does to the segments of one table.
#[derive(Debug)]
pub struct TableSegmentChange {
    pub table_id: u128,
    pub additions: Vec<SegmentDescriptor>,
    pub removals: Vec<u128>,
    /// Generation of the tombstone set to confirm once published.
    pub tombstone_ack: Option<u64>,
}

#[verifier::ext_equal]
pub struct ChangeView {
    pub table_id: u128,
    pub additions: Seq<SegmentDescriptor>,
    pub removals: Seq<u128>,
    pub tombstone_ack: Option<u64>,
}

impl View for TableSegmentChange {
    type V = ChangeView;

    open spec fn view(&self) -> ChangeView {
        ChangeView {
            table_id: self.table_id,
            additions: self.additions@,
            removals: self.removals@,
            tombstone_ack: self.tombstone_ack,
        }
    }
}

pub open spec fn change_views(changes: Seq<TableSegmentChange>) -> Seq<ChangeView> {
    changes.map_values(|c: TableSegmentChange| c@)
}

impl TableSegmentChange {
    /// One segment more.
    pub fn append(table_id: u128, segment: SegmentDescriptor) -> (r: Self)
        ensures
            r@ == (ChangeView {
                table_id,
                additions: seq![segment],
                removals: Seq::empty(),
                tombstone_ack: None,
            }),
    {
        let mut additions: Vec<SegmentDescriptor> = Vec::new();
        additions.push(segment);
        let r = TableSegmentChange { table_id, additions, removals: Vec::new(), tombstone_ack: None };
        assert(r@.additions =~= seq![segment]);
        assert(r@.removals =~= Seq::<u128>::empty());
        r
    }
}

/// First position of a table among the changes.
pub open spec fn change_of(changes: Seq<ChangeView>, table_id: u128, i: int) -> Option<int>
    decreases changes.len() - i,
{
    if i < 0 || i >= changes.len() {
        None
    } else if changes[i].table_id == table_id {
        Some(i)
    } else {
        change_of(changes, table_id, i + 1)
    }
}

proof fn lemma_change_of(changes: Seq<ChangeView>, table_id: u128, i: int)
    requires
        0 <= i,
    ensures
        change_of(changes, table_id, i) matches Some(p) ==> i <= p < changes.len()
            && changes[p].table_id == table_id,
    decreases changes.len() - i,
{
    if i < changes.len() && changes[i].table_id != table_id {
        lemma_change_of(changes, table_id, i + 1);
    }
}

fn find_change(changes: &Vec<TableSegmentChange>, table_id: u128) -> (r: Option<usize>)
    ensures
        match r {
            Some(p) => change_of(change_views(changes@), table_id, 0) == Some(p as int) && p
                < changes@.len() && changes@[p as int].table_id == table_id,
            None => change_of(change_views(changes@), table_id, 0) is None,
        },
{
    let ghost views = change_views(changes@);
    let mut i: usize = 0;
    while i < changes.len()
        invariant
            0 <= i <= changes@.len(),
            views == change_views(changes@),
            change_of(views, table_id, 0) == change_of(views, table_id, i as int),
        decreases changes@.len() - i,
    {
        assert(views[i as int].table_id == changes@[i as int].table_id);
        if changes[i].table_id == table_id {
            return Some(i);
        }
        i = i + 1;
    }
    None
}

/// One change joined to the others.
pub open spec fn joined_change(target: Seq<ChangeView>, change: ChangeView) -> Result<
    Seq<ChangeView>,
    ErrorView,
> {
    match change_of(target, change.table_id, 0) {
        None => Ok(target.push(change)),
        Some(p) => {
            let existing = target[p];
            if existing.tombstone_ack is Some && change.tombstone_ack is Some {
                Err(
                    ErrorView::Internal(
                        "checkpoint produced duplicate tombstone publication acknowledgements"@,
                    ),
                )
            } else {
                Ok(
                    target.update(
                        p,
                        ChangeView {
                            table_id: existing.table_id,
                            additions: existing.additions + change.additions,
                            removals: existing.removals + change.removals,
                            tombstone_ack: if existing.tombstone_ack is Some {
                                existing.tombstone_ack
                            } else {
                                change.tombstone_ack
                            },
                        },
                    ),
                )
            }
        },
    }
}

/// The changes from `i` on joined to the others.
pub open spec fn joined_changes(
    target: Seq<ChangeView>,
    incoming: Seq<ChangeView>,
    i: int,
) -> Result<Seq<ChangeView>, ErrorView>
    decreases incoming.len() - i,
{
    if i < 0 || i >= incoming.len() {
        Ok(target)
    } else {
        match joined_change(target, incoming[i]) {
            Err(e) => Err(e),
            Ok(next) => joined_changes(next, incoming, i + 1),
        }
    }
}

/// The same change with its removals in order.
pub open spec fn is_settled(before: ChangeView, after: ChangeView) -> bool {
    &&& after.table_id == before.table_id
    &&& after.additions == before.additions
    &&& after.tombstone_ack == before.tombstone_ack
    &&& is_sorted(after.removals)
    &&& is_permutation(after.removals, before.removals)
}

pub open spec fn table_ids(changes: Seq<ChangeView>) -> Seq<u128> {
    changes.map_values(|c: ChangeView| c.table_id)
}

/// All changes settled, in the order of their tables.
pub open spec fn is_settled_order(
    joined: Seq<ChangeView>,
    order: Seq<usize>,
    out: Seq<ChangeView>,
) -> bool {
    &&& is_order(table_ids(joined), order)
    &&& out.len() == joined.len()
    &&& forall|a: int|
        0 <= a < out.len() ==> is_settled(joined[order[a] as int], #[trigger] out[a])
}

fn join_change(target: &mut Vec<TableSegmentChange>, change: TableSegmentChange) -> (r: Result<
    (),
    Error,
>)
    ensures
        match r {
            Ok(()) => joined_change(change_views(old(target)@), change@) == Ok::<
                Seq<ChangeView>,
                ErrorView,
            >(change_views(final(target)@)),
            Err(e) => joined_change(change_views(old(target)@), change@) == Err::<
                Seq<ChangeView>,
                ErrorView,
            >(e@),
        },
{
    let ghost before = change_views(target@);
    match find_change(target, change.table_id) {
        None => {
            let ghost seen = change@;
            target.push(change);
            assert(change_views(target@) =~= before.push(seen));
            Ok(())
        },
        Some(p) => {
            if target[p].tombstone_ack.is_some() && change.tombstone_ack.is_some() {
                assert(before[p as int].tombstone_ack is Some);
                return Err(
                    Error::internal(
                        "checkpoint produced duplicate tombstone publication acknowledgements",
                    ),
                );
            }
            let ghost seen = change@;
            let ghost held = target@[p as int]@;
            assert(before[p as int] == held);
            let mut existing: TableSegmentChange = target.remove(p);
            let mut change: TableSegmentChange = change;
            existing.additions.append(&mut change.additions);
            existing.removals.append(&mut change.removals);
            if existing.tombstone_ack.is_none() {
                existing.tombstone_ack = change.tombstone_ack;
            }
            let ghost next = existing@;
            assert(next.additions =~= held.additions + seen.additions);
            assert(next.removals =~= held.removals + seen.removals);
            target.insert(p, existing);
            assert(change_views(target@) =~= before.update(p as int, next));
            Ok(())
        },
    }
}

/// Whether a sorted sequence repeats an element.
fn repeats(ids: &Vec<u128>) -> (r: bool)
    requires
        is_sorted(ids@),
    ensures
        r == !ids@.no_duplicates(),
{
    let mut i: usize = 1;
    while i < ids.len()
        invariant
            1 <= i,
            i <= ids@.len() || ids@.len() == 0,
            is_sorted(ids@),
            forall|a: int, b: int|
                0 <= a < b < i && b < ids@.len() ==> #[trigger] ids@[a] < #[trigger] ids@[b],
        decreases ids@.len() - i,
    {
        if ids[i - 1] == ids[i] {
            assert(ids@[i - 1] == ids@[i as int]);
            return true;
        }
        assert(crate::sort::SortKey::leq(ids@[i - 1], ids@[i as int]));
        assert forall|a: int, b: int| 0 <= a < b < i + 1 && b < ids@.len() implies #[trigger] ids@[a]
            < #[trigger] ids@[b] by {
            if b == i && a < i - 1 {
                assert(ids@[a] < ids@[i - 1]);
            }
        }
        i = i + 1;
    }
    assert(ids@.no_duplicates());
    false
}

/// Joins the changes of a checkpoint, table by table. One table has at most
/// one tombstone set to confirm, and no segment is removed twice.
pub fn merge_segment_changes(
    target: &mut Vec<TableSegmentChange>,
    incoming: Vec<TableSegmentChange>,
) -> (r: Result<(), Error>)
    ensures
        match joined_changes(change_views(old(target)@), change_views(incoming@), 0) {
            Err(e) => refusal(r) == Some(e),
            Ok(joined) => if exists|i: int|
                0 <= i < joined.len() && !(#[trigger] joined[i]).removals.no_duplicates() {
                refusal(r) == Some(
                    ErrorView::Internal("checkpoint segment change removes one segment twice"@),
                )
            } else {
                r is Ok && exists|order: Seq<usize>| #[trigger]
                    is_settled_order(joined, order, change_views(final(target)@))
            },
        },
{
    let ghost all = change_views(incoming@);
    let ghost wanted = joined_changes(change_views(target@), all, 0);
    let ghost source = incoming@;
    let mut rest: Vec<TableSegmentChange> = incoming;
    let ghost mut at: int = 0;
    while rest.len() > 0
        invariant
            0 <= at <= source.len(),
            rest@ == source.skip(at),
            source == incoming@,
            all == change_views(source),
            wanted == joined_changes(change_views(old(target)@), all, 0),
            wanted == joined_changes(change_views(target@), all, at),
        decreases rest@.len(),
    {
        let change: TableSegmentChange = rest.remove(0);
        assert(change@ == all[at]);
        assert(rest@ =~= source.skip(at + 1));
        match join_change(target, change) {
            Err(e) => {
                return Err(e);
            },
            Ok(()) => {},
        }
        proof {
            at = at + 1;
        }
    }
    let ghost joined = change_views(target@);
    assert(at == source.len());
    assert(wanted == Ok::<Seq<ChangeView>, ErrorView>(joined));
    let mut keys: Vec<u128> = Vec::new();
    let mut i: usize = 0;
    while i < target.len()
        invariant
            0 <= i <= target@.len(),
            joined == change_views(target@),
            keys@ == table_ids(joined).take(i as int),
        decreases target@.len() - i,
    {
        keys.push(target[i].table_id);
        assert(joined[i as int].table_id == target@[i as int].table_id);
        i = i + 1;
        assert(keys@ =~= table_ids(joined).take(i as int));
    }
    assert(keys@ =~= table_ids(joined));
    let order: Vec<usize> = order_of(keys);
    let mut out: Vec<TableSegmentChange> = Vec::new();
    let mut a: usize = 0;
    while a < order.len()
        invariant
            0 <= a <= order@.len(),
            joined == change_views(target@),
            is_order(table_ids(joined), order@),
            wanted == Ok::<Seq<ChangeView>, ErrorView>(joined),
            source == incoming@,
            wanted == joined_changes(change_views(old(target)@), change_views(source), 0),
            out@.len() == a,
            forall|k: int|
                0 <= k < a ==> is_settled(joined[order@[k] as int], (#[trigger] out@[k])@)
                    && joined[order@[k] as int].removals.no_duplicates(),
        decreases order@.len() - a,
    {
        let at: usize = order[a];
        assert(joined[at as int] == target@[at as int]@);
        let mut additions: Vec<SegmentDescriptor> = Vec::new();
        additions.extend_from_slice(target[at].additions.as_slice());
        assert(additions@ =~= joined[at as int].additions);
        let mut raw: Vec<u128> = Vec::new();
        raw.extend_from_slice(target[at].removals.as_slice());
        assert(raw@ =~= joined[at as int].removals);
        let removals: Vec<u128> = sorted(raw);
        proof {
            lemma_permutation(removals@, joined[at as int].removals);
            lemma_permutation(joined[at as int].removals, removals@);
        }
        if repeats(&removals) {
            assert(!joined[at as int].removals.no_duplicates());
            return Err(Error::internal("checkpoint segment change removes one segment twice"));
        }
        let change = TableSegmentChange {
            table_id: target[at].table_id,
            additions,
            removals,
            tombstone_ack: target[at].tombstone_ack,
        };
        out.push(change);
        a = a + 1;
    }
    proof {
        assert forall|i: int| 0 <= i < joined.len() implies (
        #[trigger] joined[i]).removals.no_duplicates() by {
            assert(crate::sort::lists(order@, i));
            let k = choose|k: int| 0 <= k < order@.len() && #[trigger] order@[k] == i;
            assert(is_settled(joined[order@[k] as int], out@[k]@));
        }
        let shown = change_views(out@);
        assert forall|a: int| 0 <= a < shown.len() implies is_settled(
            joined[order@[a] as int],
            #[trigger] shown[a],
        ) by {
            assert(shown[a] == out@[a]@);
        }
        assert(is_settled_order(joined, order@, shown));
    }
    *target = out;
    Ok(())
}

/// A row segment that the runtime holds.
#[derive(Debug)]
pub struct RuntimeSegment {
    /// Absent where the segment has no canonical artifact.
    pub artifact: Option<RuntimeArtifact>,
}

/// What the runtime segment's artifact says of itself.
#[derive(Debug)]
pub struct RuntimeArtifact {
    pub table_id: u128,
    pub kind: SegmentKind,
    pub segment_id: u128,
    /// The segment's identity, as it is printed.
    pub id_text: String,
}

pub open spec fn checkpoint_message(table: Seq<char>, text: Seq<char>) -> ErrorView {
    ErrorView::Internal("checkpoint table '"@ + table + "' "@ + text)
}

fn checkpoint_error(table: &str, text: &str) -> (e: Error)
    ensures
        e@ == checkpoint_message(table@, text@),
{
    Error::Internal {
        message: String::from_str("checkpoint table '").concat(table).concat("' ").concat(text),
    }
}

/// Why a runtime segment cannot be compared.
pub open spec fn runtime_refusal(table: Seq<char>, table_id: u128, segment: RuntimeSegment) -> Option<
    ErrorView,
> {
    match segment.artifact {
        None => Some(
            checkpoint_message(table, "has a row segment without canonical DATA"@),
        ),
        Some(a) => if a.table_id != table_id || a.kind != SegmentKind::Rows {
            Some(checkpoint_message(table, "has a DATA segment with mismatched identity"@))
        } else {
            None
        },
    }
}

pub open spec fn is_durable_row(durable: Seq<SegmentDescriptor>, id: u128) -> bool {
    exists|k: int|
        0 <= k < durable.len() && (#[trigger] durable[k]).kind == SegmentKind::Rows
            && durable[k].id == id
}

pub open spec fn runtime_id(segment: RuntimeSegment) -> u128 {
    segment.artifact->Some_0.segment_id
}

pub open spec fn in_runtime(runtime: Seq<RuntimeSegment>, id: u128) -> bool {
    exists|k: int| 0 <= k < runtime.len() && runtime_id(#[trigger] runtime[k]) == id
}

/// Position of the smallest identity that no generation selected.
pub open spec fn least_unpublished(
    runtime: Seq<RuntimeSegment>,
    durable: Seq<SegmentDescriptor>,
    n: int,
) -> Option<int>
    decreases n,
{
    if n <= 0 {
        None
    } else {
        let before = least_unpublished(runtime, durable, n - 1);
        let id = runtime_id(runtime[n - 1]);
        if is_durable_row(durable, id) {
            before
        } else {
            match before {
                Some(p) => if id < runtime_id(runtime[p]) {
                    Some(n - 1)
                } else {
                    Some(p)
                },
                None => Some(n - 1),
            }
        }
    }
}

proof fn lemma_least_unpublished(
    runtime: Seq<RuntimeSegment>,
    durable: Seq<SegmentDescriptor>,
    n: int,
)
    requires
        0 <= n <= runtime.len(),
    ensures
        least_unpublished(runtime, durable, n) matches Some(p) ==> 0 <= p < n,
    decreases n,
{
    if n > 0 {
        lemma_least_unpublished(runtime, durable, n - 1);
    }
}

/// Why the membership of a table cannot be reconciled.
pub open spec fn membership_refusal(
    table: Seq<char>,
    table_id: u128,
    runtime: Seq<RuntimeSegment>,
    durable: Seq<SegmentDescriptor>,
) -> Option<ErrorView> {
    match first_refusal(
        0,
        runtime.len() as int,
        |k: int| runtime_refusal(table, table_id, runtime[k]),
    ) {
        Some(e) => Some(e),
        None => match least_unpublished(runtime, durable, runtime.len() as int) {
            Some(p) => Some(
                checkpoint_message(
                    table,
                    "contains runtime segment "@ + runtime[p].artifact->Some_0.id_text@
                        + " absent from CONTROL"@,
                ),
            ),
            None => None,
        },
    }
}

/// Identities in strictly ascending order.
pub open spec fn ascending_identities(ids: Seq<u128>) -> bool {
    forall|i: int, j: int| 0 <= i < j < ids.len() ==> #[trigger] ids[i] < #[trigger] ids[j]
}

fn unique_ids(raw: Vec<u128>) -> (out: Vec<u128>)
    ensures
        ascending_identities(out@),
        forall|x: u128| out@.contains(x) <==> raw@.contains(x),
{
    let ghost all = raw@;
    let ordered: Vec<u128> = sorted(raw);
    let mut out: Vec<u128> = Vec::new();
    let mut i: usize = 0;
    while i < ordered.len()
        invariant
            0 <= i <= ordered@.len(),
            is_sorted(ordered@),
            ascending_identities(out@),
            i > 0 ==> out@.len() > 0 && out@[out@.len() - 1] == ordered@[i - 1],
            i == 0 ==> out@.len() == 0,
            forall|k: int| 0 <= k < i ==> out@.contains(#[trigger] ordered@[k]),
            forall|k: int| 0 <= k < out@.len() ==> ordered@.contains(#[trigger] out@[k]),
        decreases ordered@.len() - i,
    {
        let repeated: bool = out.len() > 0 && out[out.len() - 1] == ordered[i];
        if !repeated {
            let ghost before = out@;
            out.push(ordered[i]);
            proof {
                if i > 0 {
                    assert(crate::sort::SortKey::leq(ordered@[i - 1], ordered@[i as int]));
                }
                assert(ordered@.contains(ordered@[i as int]));
                assert(out@[before.len() as int] == ordered@[i as int]);
                assert forall|k: int| 0 <= k < i + 1 implies out@.contains(
                    #[trigger] ordered@[k],
                ) by {
                    if k < i {
                        assert(before.contains(ordered@[k]));
                        let m = choose|m: int| 0 <= m < before.len() && before[m] == ordered@[k];
                        assert(out@[m] == ordered@[k]);
                    }
                }
            }
        }
        i = i + 1;
    }
    proof {
        lemma_permutation(ordered@, all);
        assert forall|x: u128| out@.contains(x) <==> all.contains(x) by {
            if out@.contains(x) {
                let k = choose|k: int| 0 <= k < out@.len() && out@[k] == x;
                assert(ordered@.contains(out@[k]));
            }
            if all.contains(x) {
                assert(ordered@.contains(x));
                let k = choose|k: int| 0 <= k < ordered@.len() && ordered@[k] == x;
                assert(out@.contains(ordered@[k]));
            }
        }
    }
    out
}

fn has_durable_row(durable: &Vec<SegmentDescriptor>, id: u128) -> (r: bool)
    ensures
        r == is_durable_row(durable@, id),
{
    let mut k: usize = 0;
    while k < durable.len()
        invariant
            0 <= k <= durable@.len(),
            forall|m: int|
                0 <= m < k ==> !((#[trigger] durable@[m]).kind == SegmentKind::Rows
                    && durable@[m].id == id),
        decreases durable@.len() - k,
    {
        if durable[k].kind == SegmentKind::Rows && durable[k].id == id {
            return true;
        }
        k = k + 1;
    }
    false
}

fn has_runtime(runtime: &Vec<RuntimeSegment>, id: u128) -> (r: bool)
    requires
        forall|k: int| 0 <= k < runtime@.len() ==> (#[trigger] runtime@[k]).artifact is Some,
    ensures
        r == in_runtime(runtime@, id),
{
    let mut k: usize = 0;
    while k < runtime.len()
        invariant
            0 <= k <= runtime@.len(),
            forall|m: int| 0 <= m < runtime@.len() ==> (#[trigger] runtime@[m]).artifact is Some,
            forall|m: int| 0 <= m < k ==> runtime_id(#[trigger] runtime@[m]) != id,
        decreases runtime@.len() - k,
    {
        if let Some(artifact) = &runtime[k].artifact {
            if artifact.segment_id == id {
                assert(runtime_id(runtime@[k as int]) == id);
                return true;
            }
        }
        k = k + 1;
    }
    false
}

/// Segments that the selected generation lists for a table but the runtime no
/// longer has. A truncation empties the runtime at once; the manifest follows
/// with the next checkpoint.
pub fn row_membership_removals(
    table: &str,
    table_id: u128,
    runtime: &Vec<RuntimeSegment>,
    durable: &Vec<SegmentDescriptor>,
) -> (r: Result<Vec<u128>, Error>)
    ensures
        refusal(r) == membership_refusal(table@, table_id, runtime@, durable@),
        r matches Ok(removals) ==> ascending_identities(removals@) && forall|id: u128|
            removals@.contains(id) <==> is_durable_row(durable@, id) && !in_runtime(runtime@, id),
{
    let ghost n = runtime@.len() as int;
    let ghost check = |k: int| runtime_refusal(table@, table_id, runtime@[k]);
    let mut k: usize = 0;
    while k < runtime.len()
        invariant
            0 <= k <= runtime@.len(),
            n == runtime@.len(),
            check == (|k: int| runtime_refusal(table@, table_id, runtime@[k])),
            first_refusal(0, n, check) == first_refusal(k as int, n, check),
            forall|m: int| 0 <= m < k ==> (#[trigger] runtime@[m]).artifact is Some,
        decreases runtime@.len() - k,
    {
        let refused: Result<(), Error> = match &runtime[k].artifact {
            None => Err(checkpoint_error(table, "has a row segment without canonical DATA")),
            Some(a) => if a.table_id != table_id || a.kind != SegmentKind::Rows {
                Err(checkpoint_error(table, "has a DATA segment with mismatched identity"))
            } else {
                Ok(())
            },
        };
        assert(check(k as int) == refusal(refused));
        match refused {
            Err(e) => {
                return Err(e);
            },
            Ok(()) => {},
        }
        k = k + 1;
    }
    let mut least: Option<usize> = None;
    let mut i: usize = 0;
    while i < runtime.len()
        invariant
            0 <= i <= runtime@.len(),
            forall|m: int| 0 <= m < runtime@.len() ==> (#[trigger] runtime@[m]).artifact is Some,
            match least {
                Some(p) => least_unpublished(runtime@, durable@, i as int) == Some(p as int) && p
                    < i,
                None => least_unpublished(runtime@, durable@, i as int) is None,
            },
        decreases runtime@.len() - i,
    {
        if let Some(artifact) = &runtime[i].artifact {
            if !has_durable_row(durable, artifact.segment_id) {
                least = match least {
                    None => Some(i),
                    Some(p) => match &runtime[p].artifact {
                        Some(held) => if artifact.segment_id < held.segment_id {
                            Some(i)
                        } else {
                            Some(p)
                        },
                        None => Some(p),
                    },
                };
            }
        }
        i = i + 1;
    }
    if let Some(p) = least {
        if let Some(artifact) = &runtime[p].artifact {
            let text: String = String::from_str("contains runtime segment ").concat(
                artifact.id_text.as_str(),
            ).concat(" absent from CONTROL");
            return Err(checkpoint_error(table, text.as_str()));
        }
    }
    let mut raw: Vec<u128> = Vec::new();
    let mut d: usize = 0;
    while d < durable.len()
        invariant
            0 <= d <= durable@.len(),
            forall|m: int| 0 <= m < runtime@.len() ==> (#[trigger] runtime@[m]).artifact is Some,
            forall|id: u128| #[trigger]
                raw@.contains(id) <==> !in_runtime(runtime@, id) && exists|m: int|
                    0 <= m < d && (#[trigger] durable@[m]).kind == SegmentKind::Rows
                        && durable@[m].id == id,
        decreases durable@.len() - d,
    {
        let ghost before = raw@;
        let id: u128 = durable[d].id;
        if durable[d].kind == SegmentKind::Rows && !has_runtime(runtime, id) {
            raw.push(id);
            assert(raw@[before.len() as int] == id);
        }
        assert forall|x: u128| #[trigger]
            raw@.contains(x) <==> !in_runtime(runtime@, x) && exists|m: int|
                0 <= m < d + 1 && (#[trigger] durable@[m]).kind == SegmentKind::Rows
                    && durable@[m].id == x by {
            if before.contains(x) {
                let m = choose|m: int| 0 <= m < before.len() && before[m] == x;
                assert(raw@[m] == x);
                let q = choose|q: int|
                    0 <= q < d && (#[trigger] durable@[q]).kind == SegmentKind::Rows
                        && durable@[q].id == x;
                assert(durable@[q].id == x);
            }
            if raw@.contains(x) && !before.contains(x) {
                let m = choose|m: int| 0 <= m < raw@.len() && raw@[m] == x;
                assert(m == before.len());
                assert(durable@[d as int].id == x);
            }
        }
        d = d + 1;
    }
    Ok(unique_ids(raw))
}

/// A table whose membership a checkpoint reconciles.
#[derive(Debug)]
pub struct TableMembership {
    pub table_id: u128,
    /// Absent where the catalog dropped the table.
    pub name: Option<String>,
    pub runtime: Vec<RuntimeSegment>,
    pub durable: Vec<SegmentDescriptor>,
}

pub open spec fn table_refusal(t: TableMembership) -> Option<ErrorView> {
    match t.name {
        None => None,
        Some(name) => membership_refusal(name@, t.table_id, t.runtime@, t.durable@),
    }
}

/// Whether the selected generation lists a segment that the runtime lost.
pub open spec fn loses_rows(t: TableMembership) -> bool {
    t.name is Some && exists|id: u128|
        #![trigger is_durable_row(t.durable@, id)]
        is_durable_row(t.durable@, id) && !in_runtime(t.runtime@, id)
}

/// Positions below `n` of the tables that lost segments.
pub open spec fn losing_tables(tables: Seq<TableMembership>, n: int) -> Seq<int>
    decreases n,
{
    if n <= 0 {
        Seq::empty()
    } else if loses_rows(tables[n - 1]) {
        losing_tables(tables, n - 1).push(n - 1)
    } else {
        losing_tables(tables, n - 1)
    }
}

/// The removal that a table's losses come to.
pub open spec fn is_removal(t: TableMembership, change: ChangeView) -> bool {
    &&& change.table_id == t.table_id
    &&& change.additions.len() == 0
    &&& change.tombstone_ack is None
    &&& ascending_identities(change.removals)
    &&& forall|id: u128|
        change.removals.contains(id) <==> is_durable_row(t.durable@, id) && !in_runtime(
            t.runtime@,
            id,
        )
}

/// Manifest changes that bring the selected generation in line with the
/// runtime before the log prefix goes.
pub fn checkpoint_row_membership_changes(tables: &Vec<TableMembership>) -> (r: Result<
    Vec<TableSegmentChange>,
    Error,
>)
    ensures
        refusal(r) == first_refusal(
            0,
            tables@.len() as int,
            |i: int| table_refusal(tables@[i]),
        ),
        r matches Ok(changes) ==> {
            let losing = losing_tables(tables@, tables@.len() as int);
            changes@.len() == losing.len() && forall|k: int|
                0 <= k < changes@.len() ==> is_removal(
                    tables@[losing[k]],
                    (#[trigger] changes@[k])@,
                )
        },
{
    let ghost n = tables@.len() as int;
    let ghost check = |i: int| table_refusal(tables@[i]);
    let mut changes: Vec<TableSegmentChange> = Vec::new();
    let mut i: usize = 0;
    while i < tables.len()
        invariant
            0 <= i <= tables@.len(),
            n == tables@.len(),
            check == (|i: int| table_refusal(tables@[i])),
            first_refusal(0, n, check) == first_refusal(i as int, n, check),
            changes@.len() == losing_tables(tables@, i as int).len(),
            forall|k: int|
                0 <= k < changes@.len() ==> is_removal(
                    tables@[losing_tables(tables@, i as int)[k]],
                    (#[trigger] changes@[k])@,
                ),
        decreases tables@.len() - i,
    {
        let ghost losing = losing_tables(tables@, i as int);
        match &tables[i].name {
            None => {
                assert(check(i as int) is None);
                assert(!loses_rows(tables@[i as int]));
            },
            Some(name) => {
                let removed: Result<Vec<u128>, Error> = row_membership_removals(
                    name.as_str(),
                    tables[i].table_id,
                    &tables[i].runtime,
                    &tables[i].durable,
                );
                assert(check(i as int) == refusal(removed));
                match removed {
                    Err(e) => {
                        return Err(e);
                    },
                    Ok(removals) => {
                        if removals.len() > 0 {
                            proof {
                                assert(removals@.contains(removals@[0]));
                                assert(is_durable_row(tables@[i as int].durable@, removals@[0]));
                                assert(loses_rows(tables@[i as int]));
                                assert(losing_tables(tables@, i + 1) == losing.push(i as int));
                            }
                            let change = TableSegmentChange {
                                table_id: tables[i].table_id,
                                additions: Vec::new(),
                                removals,
                                tombstone_ack: None,
                            };
                            assert(is_removal(tables@[i as int], change@));
                            changes.push(change);
                        } else {
                            assert(!loses_rows(tables@[i as int])) by {
                                if loses_rows(tables@[i as int]) {
                                    let id = choose|id: u128|
                                        #![trigger is_durable_row(tables@[i as int].durable@, id)]
                                        is_durable_row(tables@[i as int].durable@, id)
                                            && !in_runtime(tables@[i as int].runtime@, id);
                                    assert(removals@.contains(id));
                                }
                            }
                        }
                    },
                }
            },
        }
        i = i + 1;
    }
    Ok(changes)
}

/// First descriptor with an identity.
pub open spec fn segment_of(segments: Seq<SegmentDescriptor>, id: u128, i: int) -> Option<
    SegmentDescriptor,
>
    decreases segments.len() - i,
{
    if i < 0 || i >= segments.len() {
        None
    } else if segments[i].id == id {
        Some(segments[i])
    } else {
        segment_of(segments, id, i + 1)
    }
}

pub fn find_segment(segments: &Vec<SegmentDescriptor>, id: u128) -> (r: Option<SegmentDescriptor>)
    ensures
        r == segment_of(segments@, id, 0),
{
    let mut i: usize = 0;
    while i < segments.len()
        invariant
            0 <= i <= segments@.len(),
            segment_of(segments@, id, 0) == segment_of(segments@, id, i as int),
        decreases segments@.len() - i,
    {
        if segments[i].id == id {
            return Some(segments[i]);
        }
        i = i + 1;
    }
    None
}

/// A volume selected for a merge: its segment and DATA artifact, if it has one.
#[derive(Debug, Clone, Copy)]
pub struct CompactionInput {
    pub artifact: Option<(u128, ArtifactRef)>,
}

/// What a merge replaces.
#[derive(Debug)]
pub struct CompactionInputs {
    pub expected: Vec<SegmentDescriptor>,
    pub removals: Vec<u128>,
    pub min_transaction_id: u64,
    pub max_transaction_id: u64,
}

pub open spec fn input_id(input: CompactionInput) -> u128 {
    input.artifact->Some_0.0
}

pub open spec fn repeats_input(inputs: Seq<CompactionInput>, i: int) -> bool {
    exists|k: int| 0 <= k < i && input_id(#[trigger] inputs[k]) == input_id(inputs[i])
}

pub open spec fn input_refusal(
    manifest: Seq<SegmentDescriptor>,
    inputs: Seq<CompactionInput>,
    i: int,
) -> Option<ErrorView> {
    match inputs[i].artifact {
        None => Some(
            ErrorView::Internal("compaction input is not a canonical DATA artifact"@),
        ),
        Some((id, data)) => if repeats_input(inputs, i) {
            Some(ErrorView::Internal("compaction input repeats a physical segment identity"@))
        } else {
            match segment_of(manifest, id, 0) {
                None => Some(
                    ErrorView::Internal(
                        "compaction input is absent from physical table manifest"@,
                    ),
                ),
                Some(d) => if d.data != data {
                    Some(
                        ErrorView::Internal(
                            "compaction input DATA reference differs from physical table manifest"@,
                        ),
                    )
                } else {
                    None
                },
            }
        },
    }
}

pub open spec fn input_descriptors(
    manifest: Seq<SegmentDescriptor>,
    inputs: Seq<CompactionInput>,
) -> Seq<SegmentDescriptor> {
    inputs.map_values(|x: CompactionInput| segment_of(manifest, input_id(x), 0)->Some_0)
}

pub open spec fn oldest_transaction(segments: Seq<SegmentDescriptor>, n: int) -> int
    decreases n,
{
    if n <= 0 {
        u64::MAX as int
    } else {
        spec_min(oldest_transaction(segments, n - 1), segments[n - 1].min_transaction_id as int)
    }
}

pub open spec fn newest_transaction(segments: Seq<SegmentDescriptor>, n: int) -> int
    decreases n,
{
    if n <= 0 {
        0
    } else {
        spec_max(newest_transaction(segments, n - 1), segments[n - 1].max_transaction_id as int)
    }
}

/// Resolves the inputs of a merge against the selected manifest. Each must be
/// a canonical artifact that the manifest lists, none twice.
pub fn compaction_inputs(
    manifest: &Vec<SegmentDescriptor>,
    inputs: &Vec<CompactionInput>,
) -> (r: Result<CompactionInputs, Error>)
    ensures
        refusal(r) == first_refusal(
            0,
            inputs@.len() as int,
            |i: int| input_refusal(manifest@, inputs@, i),
        ),
        r matches Ok(c) ==> {
            &&& c.expected@ == input_descriptors(manifest@, inputs@)
            &&& c.removals@ == inputs@.map_values(|x: CompactionInput| input_id(x))
            &&& c.min_transaction_id == oldest_transaction(c.expected@, c.expected@.len() as int)
            &&& c.max_transaction_id == newest_transaction(c.expected@, c.expected@.len() as int)
        },
{
    let ghost n = inputs@.len() as int;
    let ghost check = |i: int| input_refusal(manifest@, inputs@, i);
    let ghost wanted = input_descriptors(manifest@, inputs@);
    let mut expected: Vec<SegmentDescriptor> = Vec::new();
    let mut removals: Vec<u128> = Vec::new();
    let mut min_transaction_id: u64 = u64::MAX;
    let mut max_transaction_id: u64 = 0;
    let mut i: usize = 0;
    while i < inputs.len()
        invariant
            0 <= i <= inputs@.len(),
            n == inputs@.len(),
            check == (|i: int| input_refusal(manifest@, inputs@, i)),
            first_refusal(0, n, check) == first_refusal(i as int, n, check),
            wanted == input_descriptors(manifest@, inputs@),
            expected@ == wanted.take(i as int),
            removals@.len() == i,
            forall|k: int| 0 <= k < i ==> #[trigger] removals@[k] == input_id(inputs@[k]),
            min_transaction_id == oldest_transaction(wanted, i as int),
            max_transaction_id == newest_transaction(wanted, i as int),
        decreases inputs@.len() - i,
    {
        let (id, data): (u128, ArtifactRef) = match inputs[i].artifact {
            Some(a) => a,
            None => {
                assert(check(i as int) is Some);
                return Err(Error::internal("compaction input is not a canonical DATA artifact"));
            },
        };
        let mut k: usize = 0;
        while k < removals.len()
            invariant
                0 <= k <= removals@.len(),
                removals@.len() == i,
                i < inputs@.len(),
                n == inputs@.len(),
                inputs@[i as int].artifact == Some((id, data)),
                check == (|i: int| input_refusal(manifest@, inputs@, i)),
                first_refusal(0, n, check) == first_refusal(i as int, n, check),
                forall|m: int| 0 <= m < i ==> #[trigger] removals@[m] == input_id(inputs@[m]),
                forall|m: int| 0 <= m < k ==> input_id(#[trigger] inputs@[m]) != id,
            decreases removals@.len() - k,
        {
            if removals[k] == id {
                assert(removals@[k as int] == input_id(inputs@[k as int]));
                assert(repeats_input(inputs@, i as int));
                assert(check(i as int) is Some);
                return Err(
                    Error::internal("compaction input repeats a physical segment identity"),
                );
            }
            assert(removals@[k as int] == input_id(inputs@[k as int]));
            k = k + 1;
        }
        assert(!repeats_input(inputs@, i as int));
        let descriptor: SegmentDescriptor = match find_segment(manifest, id) {
            Some(d) => d,
            None => {
                assert(check(i as int) is Some);
                return Err(
                    Error::internal("compaction input is absent from physical table manifest"),
                );
            },
        };
        if descriptor.data != data {
            assert(check(i as int) is Some);
            return Err(
                Error::internal(
                    "compaction input DATA reference differs from physical table manifest",
                ),
            );
        }
        assert(check(i as int) is None);
        assert(wanted[i as int] == descriptor);
        if descriptor.min_transaction_id < min_transaction_id {
            min_transaction_id = descriptor.min_transaction_id;
        }
        if descriptor.max_transaction_id > max_transaction_id {
            max_transaction_id = descriptor.max_transaction_id;
        }
        expected.push(descriptor);
        removals.push(id);
        i = i + 1;
        assert(expected@ =~= wanted.take(i as int));
    }
    assert(wanted.take(i as int) =~= wanted);
    assert(removals@ =~= inputs@.map_values(|x: CompactionInput| input_id(x)));
    Ok(CompactionInputs { expected, removals, min_transaction_id, max_transaction_id })
}

/// Why a merge may not be published on the generation selected now.
pub open spec fn rebase_refusal(
    meta: CatalogMeta,
    control: ControlRecord,
    table: Option<Seq<SegmentDescriptor>>,
    expected: Seq<SegmentDescriptor>,
) -> Option<ErrorView> {
    match identity_refusal(meta, control) {
        Some(e) => Some(e),
        None => if !is_selected(meta, control) {
            Some(stale_abort("catalog advanced after compaction planning"@))
        } else {
            match table {
                None => Some(
                    stale_abort("selected table disappeared after compaction planning"@),
                ),
                Some(segments) => if exists|k: int|
                    0 <= k < expected.len() && segment_of(
                        segments,
                        (#[trigger] expected[k]).id,
                        0,
                    ) != Some(expected[k]) {
                    Some(stale_abort("selected input changed after compaction planning"@))
                } else {
                    None
                },
            }
        },
    }
}

pub open spec fn optional_segments(table: Option<&Vec<SegmentDescriptor>>) -> Option<
    Seq<SegmentDescriptor>,
> {
    match table {
        Some(s) => Some(s@),
        None => None,
    }
}

/// Checks that what a merge read is still what the selected generation lists.
pub fn validate_rebase(
    meta: CatalogMeta,
    control: ControlRecord,
    table: Option<&Vec<SegmentDescriptor>>,
    expected: &Vec<SegmentDescriptor>,
) -> (r: Result<(), Error>)
    ensures
        refusal(r) == rebase_refusal(meta, control, optional_segments(table), expected@),
{
    match validate_catalog_identity(meta, control) {
        Err(e) => {
            return Err(e);
        },
        Ok(()) => {},
    }
    if meta.catalog_generation != control.catalog.generation || meta.catalog_id
        != control.catalog.id {
        return Err(stale_publication("catalog advanced after compaction planning"));
    }
    let segments: &Vec<SegmentDescriptor> = match table {
        Some(s) => s,
        None => {
            return Err(stale_publication("selected table disappeared after compaction planning"));
        },
    };
    let mut k: usize = 0;
    while k < expected.len()
        invariant
            0 <= k <= expected@.len(),
            table == Some(segments),
            identity_refusal(meta, control) is None,
            is_selected(meta, control),
            forall|m: int|
                0 <= m < k ==> segment_of(segments@, (#[trigger] expected@[m]).id, 0) == Some(
                    expected@[m],
                ),
        decreases expected@.len() - k,
    {
        let same: bool = match find_segment(segments, expected[k].id) {
            Some(actual) => actual == expected[k],
            None => false,
        };
        if !same {
            assert(segment_of(segments@, expected@[k as int].id, 0) != Some(expected@[k as int]));
            return Err(stale_publication("selected input changed after compaction planning"));
        }
        k = k + 1;
    }
    Ok(())
}

pub open spec fn removal_refusal(segments: Seq<SegmentDescriptor>, id: u128) -> Option<ErrorView> {
    if segment_of(segments, id, 0) is Some {
        None
    } else {
        Some(stale_abort("segment selected for removal changed during manifest rebase"@))
    }
}

/// The descriptors that a merge takes out of the selected manifest.
pub fn expected_removals(segments: &Vec<SegmentDescriptor>, removals: &Vec<u128>) -> (r: Result<
    Vec<SegmentDescriptor>,
    Error,
>)
    ensures
        refusal(r) == first_refusal(
            0,
            removals@.len() as int,
            |k: int| removal_refusal(segments@, removals@[k]),
        ),
        r matches Ok(out) ==> out@ == removals@.map_values(
            |id: u128| segment_of(segments@, id, 0)->Some_0,
        ),
{
    let ghost n = removals@.len() as int;
    let ghost check = |k: int| removal_refusal(segments@, removals@[k]);
    let ghost wanted = removals@.map_values(|id: u128| segment_of(segments@, id, 0)->Some_0);
    let mut out: Vec<SegmentDescriptor> = Vec::new();
    let mut k: usize = 0;
    while k < removals.len()
        invariant
            0 <= k <= removals@.len(),
            n == removals@.len(),
            check == (|k: int| removal_refusal(segments@, removals@[k])),
            wanted == removals@.map_values(|id: u128| segment_of(segments@, id, 0)->Some_0),
            first_refusal(0, n, check) == first_refusal(k as int, n, check),
            out@ == wanted.take(k as int),
        decreases removals@.len() - k,
    {
        match find_segment(segments, removals[k]) {
            Some(d) => {
                assert(check(k as int) is None);
                out.push(d);
            },
            None => {
                assert(check(k as int) is Some);
                return Err(
                    stale_publication(
                        "segment selected for removal changed during manifest rebase",
                    ),
                );
            },
        }
        k = k + 1;
        assert(out@ =~= wanted.take(k as int));
    }
    assert(wanted.take(k as int) =~= wanted);
    Ok(out)
}

/// A segment with a rebuilt INDEX artifact.
pub fn with_index(source: SegmentDescriptor, index: ArtifactRef) -> (r: SegmentDescriptor)
    ensures
        r == (SegmentDescriptor { index: Some(index), ..source }),
{
    SegmentDescriptor { index: Some(index), ..source }
}

} // verus!
