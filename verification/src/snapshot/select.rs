//! Choosing among the snapshots of a database.
use crate::error::first_refusal;
use crate::error::refusal;
use crate::error::Error;
use crate::error::ErrorView;
use crate::num::monus;
use crate::num::spec_max;
use crate::sort::is_order;
use crate::sort::order_of;
use crate::sort::SortKey;
use crate::text::decimal;
use crate::text::decimal_digits;
use vstd::prelude::*;
use vstd::string::StringExecFns;

verus! {

/// Most entries of a directory that are looked at.
pub const MAX_SNAPSHOT_DIRECTORIES: usize = 4096;

/// Age of a snapshot, with its identity to tell equally old ones apart.
#[derive(Debug, Clone, Copy, PartialEq, Eq, Structural)]
pub struct SnapshotKey {
    pub created_unix_ns: u64,
    /// The identity's bytes as a number, first byte first.
    pub id: u128,
}

pub open spec fn is_newer(a: SnapshotKey, b: SnapshotKey) -> bool {
    a.created_unix_ns > b.created_unix_ns || (a.created_unix_ns == b.created_unix_ns && a.id
        > b.id)
}

impl SortKey for SnapshotKey {
    open spec fn leq(self, other: Self) -> bool {
        !is_newer(self, other)
    }

    proof fn lemma_total(a: Self, b: Self) {
    }

    proof fn lemma_transitive(a: Self, b: Self, c: Self) {
    }

    fn is_leq(&self, other: &Self) -> (r: bool) {
        !(self.created_unix_ns > other.created_unix_ns || (self.created_unix_ns
            == other.created_unix_ns && self.id > other.id))
    }
}

/// An entry of the snapshot root.
#[derive(Debug)]
pub enum SnapshotEntry {
    /// Could not be read; the text of the fault.
    Unreadable { text: String },
    /// Could not be inspected; its path and the text of the fault.
    Uninspected { path: String, text: String },
    /// No committed snapshot under its own name.
    Passed,
    Committed(SnapshotKey),
}

/// What a look at an entry of the snapshot root brought.
#[derive(Debug)]
pub struct FoundEntry {
    pub path: String,
    /// Whether it is a directory and no link, or the text of the fault.
    pub is_directory: Result<bool, String>,
    /// The identity that its name denotes, where it denotes one.
    pub named: Option<u128>,
    /// Age and identity that its manifest gives, where it has a sound one.
    pub manifest: Option<SnapshotKey>,
}

/// Whether an entry is a committed snapshot under its own name.
pub open spec fn is_committed(entry: FoundEntry) -> bool {
    &&& entry.is_directory == Ok::<bool, String>(true)
    &&& entry.manifest matches Some(key) && entry.named == Some(key.id)
}

/// Judges an entry. Whatever is no directory, has another name than an
/// identity, has no sound manifest, or has one of another identity is passed
/// over.
pub fn inspect_entry(entry: FoundEntry) -> (r: SnapshotEntry)
    ensures
        r == match entry.is_directory {
            Err(text) => SnapshotEntry::Uninspected { path: entry.path, text },
            Ok(_) => if is_committed(entry) {
                SnapshotEntry::Committed(entry.manifest->Some_0)
            } else {
                SnapshotEntry::Passed
            },
        },
{
    match entry.is_directory {
        Err(text) => SnapshotEntry::Uninspected { path: entry.path, text },
        Ok(false) => SnapshotEntry::Passed,
        Ok(true) => match (entry.named, entry.manifest) {
            (Some(id), Some(key)) => if id == key.id {
                SnapshotEntry::Committed(key)
            } else {
                SnapshotEntry::Passed
            },
            _ => SnapshotEntry::Passed,
        },
    }
}

pub open spec fn entry_refusal(entries: Seq<SnapshotEntry>, k: int) -> Option<ErrorView> {
    if k >= MAX_SNAPSHOT_DIRECTORIES {
        Some(
            ErrorView::Internal(
                "snapshot root exceeds the bounded directory limit "@ + decimal_digits(
                    MAX_SNAPSHOT_DIRECTORIES as nat,
                ),
            ),
        )
    } else {
        match entries[k] {
            SnapshotEntry::Unreadable { text } => Some(
                ErrorView::Internal("failed to read snapshot entry: "@ + text@),
            ),
            SnapshotEntry::Uninspected { path, text } => Some(
                ErrorView::Internal(
                    "failed to inspect snapshot entry '"@ + path@ + "': "@ + text@,
                ),
            ),
            _ => None,
        }
    }
}

/// Position of the newest snapshot below `n`.
pub open spec fn newest(entries: Seq<SnapshotEntry>, n: int) -> Option<int>
    decreases n,
{
    if n <= 0 {
        None
    } else {
        let before = newest(entries, n - 1);
        match entries[n - 1] {
            SnapshotEntry::Committed(key) => match before {
                Some(p) => if is_newer(key, entries[p]->Committed_0) {
                    Some(n - 1)
                } else {
                    Some(p)
                },
                None => Some(n - 1),
            },
            _ => before,
        }
    }
}

pub open spec fn selection_refusal(entries: Seq<SnapshotEntry>) -> Option<ErrorView> {
    match first_refusal(0, entries.len() as int, |k: int| entry_refusal(entries, k)) {
        Some(e) => Some(e),
        None => if newest(entries, entries.len() as int) is None {
            Some(ErrorView::InvalidArgument("no committed physical snapshot found"@))
        } else {
            None
        },
    }
}

/// Selects the newest committed snapshot.
pub fn select_snapshot(entries: &Vec<SnapshotEntry>) -> (r: Result<usize, Error>)
    ensures
        refusal(r) == selection_refusal(entries@),
        r matches Ok(at) ==> newest(entries@, entries@.len() as int) == Some(at as int),
{
    let ghost n = entries@.len() as int;
    let ghost check = |k: int| entry_refusal(entries@, k);
    let mut selected: Option<(usize, SnapshotKey)> = None;
    let mut k: usize = 0;
    while k < entries.len()
        invariant
            0 <= k <= entries@.len(),
            n == entries@.len(),
            check == (|k: int| entry_refusal(entries@, k)),
            first_refusal(0, n, check) == first_refusal(k as int, n, check),
            match selected {
                Some((p, key)) => p < k && newest(entries@, k as int) == Some(p as int)
                    && entries@[p as int] == SnapshotEntry::Committed(key),
                None => newest(entries@, k as int) is None,
            },
        decreases entries@.len() - k,
    {
        if k >= MAX_SNAPSHOT_DIRECTORIES {
            assert(check(k as int) is Some);
            return Err(
                Error::Internal {
                    message: String::from_str(
                        "snapshot root exceeds the bounded directory limit ",
                    ).concat(decimal(MAX_SNAPSHOT_DIRECTORIES as u64).as_str()),
                },
            );
        }
        match &entries[k] {
            SnapshotEntry::Unreadable { text } => {
                assert(check(k as int) is Some);
                return Err(
                    Error::Internal {
                        message: String::from_str("failed to read snapshot entry: ").concat(
                            text.as_str(),
                        ),
                    },
                );
            },
            SnapshotEntry::Uninspected { path, text } => {
                assert(check(k as int) is Some);
                return Err(
                    Error::Internal {
                        message: String::from_str("failed to inspect snapshot entry '").concat(
                            path.as_str(),
                        ).concat("': ").concat(text.as_str()),
                    },
                );
            },
            SnapshotEntry::Passed => {
                assert(check(k as int) is None);
            },
            SnapshotEntry::Committed(key) => {
                assert(check(k as int) is None);
                let newer: bool = match selected {
                    Some((_, held)) => key.created_unix_ns > held.created_unix_ns || (
                    key.created_unix_ns == held.created_unix_ns && key.id > held.id),
                    None => true,
                };
                if newer {
                    selected = Some((k, *key));
                }
            },
        }
        k = k + 1;
    }
    match selected {
        Some((p, _)) => Ok(p),
        None => Err(Error::invalid_argument("no committed physical snapshot found")),
    }
}

/// Why a snapshot that was asked for by name is refused. `parsed` is the
/// identity that the name denotes, or the text of the fault in it; `found` is
/// the identity that the snapshot itself has.
pub fn requested_snapshot(requested: &str, parsed: Result<u128, String>, found: u128) -> (r: Result<
    (),
    Error,
>)
    ensures
        refusal(r) == match parsed {
            Err(text) => Some(
                ErrorView::InvalidArgument(
                    "invalid physical snapshot ID '"@ + requested@ + "': "@ + text@,
                ),
            ),
            Ok(id) => if id != found {
                Some(
                    ErrorView::Internal(
                        "requested snapshot directory identity differs from SNAPSHOT.mft"@,
                    ),
                )
            } else {
                None
            },
        },
{
    match parsed {
        Err(text) => Err(
            Error::InvalidArgument(
                String::from_str("invalid physical snapshot ID '").concat(requested).concat(
                    "': ",
                ).concat(text.as_str()),
            ),
        ),
        Ok(id) => if id != found {
            Err(
                Error::internal("requested snapshot directory identity differs from SNAPSHOT.mft"),
            )
        } else {
            Ok(())
        },
    }
}

/// How many snapshots go.
pub open spec fn retired_count(count: nat, keep_count: usize) -> int {
    monus(count as int, spec_max(keep_count as int, 1))
}

/// Whether the oldest snapshots are the ones that go.
pub open spec fn retires_oldest(
    committed: Seq<SnapshotKey>,
    keep_count: usize,
    order: Seq<usize>,
    retired: Seq<usize>,
) -> bool {
    is_order(committed, order) && retired == order.take(
        retired_count(committed.len(), keep_count),
    )
}

/// Positions of the snapshots to remove, oldest first. The newest stays,
/// whatever the configured number.
pub fn retain_latest_snapshots(committed: Vec<SnapshotKey>, keep_count: usize) -> (retired: Vec<
    usize,
>)
    ensures
        exists|order: Seq<usize>| #[trigger]
            retires_oldest(committed@, keep_count, order, retired@),
{
    let n: usize = committed.len();
    let keep: usize = if keep_count > 1 {
        keep_count
    } else {
        1
    };
    let count: usize = if n > keep {
        n - keep
    } else {
        0
    };
    let ghost all = committed@;
    let order: Vec<usize> = order_of(committed);
    let ghost full = order@;
    let mut retired: Vec<usize> = order;
    retired.truncate(count);
    assert(retired@ =~= full.take(count as int));
    assert(retires_oldest(all, keep_count, full, retired@));
    retired
}

/// A snapshot that goes is no newer than any that stays, and one stays
/// wherever there was one.
pub proof fn law_retention_keeps_the_newest(
    committed: Seq<SnapshotKey>,
    keep_count: usize,
    order: Seq<usize>,
    retired: Seq<usize>,
    a: int,
    b: int,
)
    requires
        retires_oldest(committed, keep_count, order, retired),
        0 <= a < retired.len(),
        retired.len() <= b < order.len(),
    ensures
        !is_newer(committed[retired[a] as int], committed[order[b] as int]),
        retired.len() < committed.len(),
        committed.len() - retired.len() >= keep_count || committed.len() < keep_count,
{
    assert(committed[order[a] as int].leq(committed[order[b] as int]));
}

/// The selected snapshot is as new as any other.
pub proof fn law_selected_snapshot_is_newest(entries: Seq<SnapshotEntry>, n: int, k: int)
    requires
        0 <= k < n <= entries.len(),
        entries[k] is Committed,
    ensures
        newest(entries, n) is Some,
        0 <= newest(entries, n)->Some_0 < n,
        entries[newest(entries, n)->Some_0] is Committed,
        !is_newer(entries[k]->Committed_0, entries[newest(entries, n)->Some_0]->Committed_0),
    decreases n,
{
    lemma_newest_committed(entries, n - 1);
    if k < n - 1 {
        law_selected_snapshot_is_newest(entries, n - 1, k);
    }
}

proof fn lemma_newest_committed(entries: Seq<SnapshotEntry>, n: int)
    requires
        0 <= n <= entries.len(),
    ensures
        newest(entries, n) matches Some(p) ==> 0 <= p < n && entries[p] is Committed,
    decreases n,
{
    if n > 0 {
        lemma_newest_committed(entries, n - 1);
    }
}

} // verus!
