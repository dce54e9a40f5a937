//! Hash collections of row, segment and transaction identities.
//!
//! `rustc_hash` supplies the hasher; the contents of a map or set are the
//! mathematical map or set that its view denotes.
use crate::namelist::NameList;
use rustc_hash::FxBuildHasher;
use rustc_hash::FxHashMap;
use rustc_hash::FxHashSet;
use vstd::prelude::*;

verus! {

/// The hasher state of `rustc_hash` collections. It holds nothing.
#[verifier::external_type_specification]
#[verifier::external_body]
pub struct ExFxBuildHasher(FxBuildHasher);

/// `FxHashSet::default`: an empty set.
#[verifier::external_body]
pub(crate) fn row_set() -> (set: FxHashSet<i64>)
    ensures
        set@ == Set::<i64>::empty(),
{
    FxHashSet::default()
}

/// `FxHashSet::insert`: adds the key and tells whether it was new.
#[verifier::external_body]
pub(crate) fn row_set_insert(set: &mut FxHashSet<i64>, row_id: i64) -> (added: bool)
    ensures
        final(set)@ == old(set)@.insert(row_id),
        added == !old(set)@.contains(row_id),
{
    set.insert(row_id)
}

/// `FxHashSet::contains`.
#[verifier::external_body]
pub(crate) fn row_set_contains(set: &FxHashSet<i64>, row_id: i64) -> (found: bool)
    ensures
        found == set@.contains(row_id),
{
    set.contains(&row_id)
}

/// `FxHashMap::default`: an empty map.
#[verifier::external_body]
pub(crate) fn tombstone_map() -> (map: FxHashMap<i64, u64>)
    ensures
        map@.dom() == Set::<i64>::empty(),
{
    FxHashMap::default()
}

/// `FxHashMap::insert`: binds the key, replacing an earlier binding.
#[verifier::external_body]
pub(crate) fn tombstone_insert(map: &mut FxHashMap<i64, u64>, row_id: i64, commit_seq: u64)
    ensures
        final(map)@ == old(map)@.insert(row_id, commit_seq),
{
    map.insert(row_id, commit_seq);
}

/// `FxHashMap::get`.
#[verifier::external_body]
pub(crate) fn tombstone_get(map: &FxHashMap<i64, u64>, row_id: i64) -> (commit_seq: Option<u64>)
    ensures
        commit_seq == if map@.dom().contains(row_id) {
            Some(map@[row_id])
        } else {
            None
        },
{
    map.get(&row_id).copied()
}

/// `FxHashMap::is_empty`.
#[verifier::external_body]
pub(crate) fn no_tombstones(map: &FxHashMap<i64, u64>) -> (r: bool)
    ensures
        r == (map@.dom() == Set::<i64>::empty()),
{
    map.is_empty()
}

/// Every binding of the map exactly once, in no particular order.
pub open spec fn enumerates(entries: Seq<(i64, u64)>, map: Map<i64, u64>) -> bool {
    &&& forall|i: int|
        0 <= i < entries.len() ==> map.dom().contains((#[trigger] entries[i]).0)
            && map[entries[i].0] == entries[i].1
    &&& forall|k: i64| #[trigger]
        map.dom().contains(k) ==> exists|i: int|
            0 <= i < entries.len() && (#[trigger] entries[i]).0 == k
    &&& forall|i: int, j: int|
        0 <= i < j < entries.len() ==> (#[trigger] entries[i]).0 != (#[trigger] entries[j]).0
}

/// `FxHashMap::iter`, collected. The order of the bindings is unspecified.
#[verifier::external_body]
pub(crate) fn tombstone_entries(map: &FxHashMap<i64, u64>) -> (entries: Vec<(i64, u64)>)
    ensures
        enumerates(entries@, map@),
{
    map.iter().map(|(row_id, commit_seq)| (*row_id, *commit_seq)).collect()
}

/// `FxHashMap::insert`: binds the key, replacing an earlier binding.
#[verifier::external_body]
pub(crate) fn touched_insert(map: &mut FxHashMap<i64, NameList>, txn_id: i64, names: NameList)
    ensures
        final(map)@ == old(map)@.insert(txn_id, names),
{
    map.insert(txn_id, names);
}

/// `FxHashMap::remove`: unbinds the key and hands back what it was bound to.
#[verifier::external_body]
pub(crate) fn touched_remove(map: &mut FxHashMap<i64, NameList>, txn_id: i64) -> (names: Option<
    NameList,
>)
    ensures
        final(map)@ == old(map)@.remove(txn_id),
        names == if old(map)@.dom().contains(txn_id) {
            Some(old(map)@[txn_id])
        } else {
            None
        },
{
    map.remove(&txn_id)
}

/// `FxHashMap::is_empty`.
#[verifier::external_body]
pub(crate) fn none_touched(map: &FxHashMap<i64, NameList>) -> (r: bool)
    ensures
        r == (map@.dom() == Set::<i64>::empty()),
{
    map.is_empty()
}

} // verus!
