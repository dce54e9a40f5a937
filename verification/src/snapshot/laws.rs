//! Which snapshots are taken and which are kept.
use super::select::is_committed;
use super::select::law_selected_snapshot_is_newest;
use super::select::newest;
use super::select::retires_oldest;
use super::select::selection_refusal;
use super::select::FoundEntry;
use super::select::SnapshotEntry;
use super::select::SnapshotKey;
use vstd::prelude::*;

verus! {

/// One snapshot was made later than another; of two made at once the higher
/// identity counts as later.
pub open spec fn is_made_later(a: SnapshotKey, b: SnapshotKey) -> bool {
    a.created_unix_ns > b.created_unix_ns || (a.created_unix_ns == b.created_unix_ns && a.id
        > b.id)
}

/// The snapshot that is restored is a committed one, and none of the committed
/// ones was made later.
pub proof fn law_latest_snapshot_is_taken(entries: Seq<SnapshotEntry>, k: int)
    requires
        0 <= k < entries.len(),
        entries[k] is Committed,
    ensures
        ({
            let at = newest(entries, entries.len() as int);
            &&& at is Some
            &&& 0 <= at->Some_0 < entries.len()
            &&& entries[at->Some_0] is Committed
            &&& !is_made_later(entries[k]->Committed_0, entries[at->Some_0]->Committed_0)
        }),
{
    law_selected_snapshot_is_newest(entries, entries.len() as int, k);
}

/// Without a committed snapshot nothing is taken.
pub proof fn law_no_snapshot_is_made_up(entries: Seq<SnapshotEntry>, n: int)
    requires
        0 <= n <= entries.len(),
        forall|k: int| 0 <= k < n ==> !((#[trigger] entries[k]) is Committed),
    ensures
        newest(entries, n) is None,
        n == entries.len() ==> selection_refusal(entries) is Some,
    decreases n,
{
    if n > 0 {
        law_no_snapshot_is_made_up(entries, n - 1);
    }
}

/// A directory counts as a snapshot exactly where it is one, has a manifest and
/// bears the manifest's identity.
pub proof fn law_snapshot_bears_its_identity(entry: FoundEntry)
    ensures
        is_committed(entry) <==> {
            &&& entry.is_directory == Ok::<bool, String>(true)
            &&& entry.manifest is Some
            &&& entry.named == Some(entry.manifest->Some_0.id)
        },
{
}

/// Of the committed snapshots as many are kept as asked for, at least one, and
/// no kept one was made before a retired one.
pub proof fn law_latest_snapshots_are_kept(
    committed: Seq<SnapshotKey>,
    keep_count: usize,
    order: Seq<usize>,
    retired: Seq<usize>,
    a: int,
    b: int,
)
    requires
        retires_oldest(committed, keep_count, order, retired),
    ensures
        ({
            let keep: int = if keep_count == 0 {
                1
            } else {
                keep_count as int
            };
            &&& committed.len() <= keep ==> retired.len() == 0
            &&& committed.len() > keep ==> committed.len() - retired.len() == keep
        }),
        0 <= a < retired.len() && retired.len() <= b < order.len() ==> !is_made_later(
            committed[retired[a] as int],
            committed[order[b] as int],
        ) && retired[a] != order[b],
        0 <= a < b < retired.len() ==> retired[a] != retired[b],
{
    if 0 <= a < retired.len() && retired.len() <= b < order.len() {
        assert(retired[a] == order[a]);
        assert(order[a] != order[b]);
        assert(crate::sort::SortKey::leq(
            committed[order[a] as int],
            committed[order[b] as int],
        ));
    }
    if 0 <= a < b < retired.len() {
        assert(retired[a] == order[a] && retired[b] == order[b]);
        assert(order[a] != order[b]);
    }
}

} // verus!
