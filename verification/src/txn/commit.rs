//! The last checks of a commit, and what follows it.
use super::dml::needs_cold_recheck;
use crate::error::earlier;
use crate::error::first_refusal;
use crate::error::refusal;
use crate::error::Error;
use crate::error::ErrorView;
use crate::text::eq_ignore_ascii_case;
use crate::text::same_ignoring_ascii_case;
use vstd::prelude::*;

verus! {

/// Seal generations of a table with segments.
#[derive(Debug, Clone, Copy, PartialEq, Eq, Structural)]
pub struct SealState {
    /// Generation at the transaction's own checks, where it made any.
    pub recorded: Option<u64>,
    pub current: u64,
    pub has_segments: bool,
}

/// A table that a commit touches, with what its checks come to.
#[derive(Debug)]
pub struct CommitTable {
    pub has_local_changes: bool,
    /// Whether the transaction sees a store for it.
    pub has_store: bool,
    pub seal: Option<SealState>,
    /// Outcome of checking the pending rows against cold segments.
    pub cold_check: Result<(), Error>,
    /// Outcome of the store's own check.
    pub store_check: Result<(), Error>,
}

pub open spec fn is_checked(t: CommitTable) -> bool {
    t.has_local_changes && t.has_store
}

/// Whether segments were sealed behind the transaction's back.
pub open spec fn is_rechecked(t: CommitTable) -> bool {
    match t.seal {
        None => false,
        Some(s) => match s.recorded {
            Some(generation) => generation != s.current,
            None => s.has_segments,
        },
    }
}

pub open spec fn commit_refusal(t: CommitTable) -> Option<ErrorView> {
    if !is_checked(t) {
        None
    } else if is_rechecked(t) && refusal(t.cold_check) is Some {
        refusal(t.cold_check)
    } else {
        refusal(t.store_check)
    }
}

/// Positions below `n` of the tables whose generation is taken over.
pub open spec fn refreshed(tables: Seq<CommitTable>, n: int) -> Seq<usize>
    decreases n,
{
    if n <= 0 {
        Seq::empty()
    } else if is_checked(tables[n - 1]) && is_rechecked(tables[n - 1]) {
        refreshed(tables, n - 1).push((n - 1) as usize)
    } else {
        refreshed(tables, n - 1)
    }
}

pub open spec fn staging_check(removals: Seq<Result<(), Error>>) -> spec_fn(int) -> Option<
    ErrorView,
> {
    |i: int| refusal(removals[i])
}

/// Refuses a commit whose removals from cold indexes could not be staged.
fn check_removals(removals: &Vec<Result<(), Error>>) -> (r: Result<(), Error>)
    ensures
        refusal(r) == first_refusal(0, removals@.len() as int, staging_check(removals@)),
{
    let ghost n = removals@.len() as int;
    let ghost check = staging_check(removals@);
    let mut i: usize = 0;
    while i < removals.len()
        invariant
            0 <= i <= removals@.len(),
            n == removals@.len(),
            check == staging_check(removals@),
            first_refusal(0, n, check) == first_refusal(i as int, n, check),
        decreases removals@.len() - i,
    {
        let ghost found = check(i as int);
        match &removals[i] {
            Err(e) => {
                assert(found is Some);
                return Err(e.duplicate());
            },
            Ok(()) => {
                assert(found is None);
            },
        }
        i = i + 1;
    }
    Ok(())
}

/// Judges a commit: first what came of staging its removals from cold
/// indexes, one after the other; then table by table against cold segments
/// that were sealed meanwhile and against the store; then all constraints.
/// Tells which tables were checked against a newer seal generation.
pub fn validate_transaction_commit(
    removals: &Vec<Result<(), Error>>,
    tables: &Vec<CommitTable>,
    constraints: Result<(), Error>,
) -> (r: Result<Vec<usize>, Error>)
    ensures
        refusal(r) == earlier(
            first_refusal(0, removals@.len() as int, staging_check(removals@)),
            earlier(
                first_refusal(0, tables@.len() as int, |i: int| commit_refusal(tables@[i])),
                refusal(constraints),
            ),
        ),
        r matches Ok(list) ==> list@ == refreshed(tables@, tables@.len() as int),
{
    match check_removals(removals) {
        Err(e) => {
            return Err(e);
        },
        Ok(()) => {},
    }
    let ghost n = tables@.len() as int;
    let ghost check = |i: int| commit_refusal(tables@[i]);
    let mut list: Vec<usize> = Vec::new();
    let mut i: usize = 0;
    while i < tables.len()
        invariant
            0 <= i <= tables@.len(),
            n == tables@.len(),
            check == (|i: int| commit_refusal(tables@[i])),
            first_refusal(0, removals@.len() as int, staging_check(removals@)) is None,
            first_refusal(0, n, check) == first_refusal(i as int, n, check),
            list@ == refreshed(tables@, i as int),
        decreases tables@.len() - i,
    {
        let table: &CommitTable = &tables[i];
        if table.has_local_changes && table.has_store {
            let recheck: bool = match table.seal {
                Some(seal) => needs_cold_recheck(seal.recorded, seal.current, seal.has_segments),
                None => false,
            };
            if recheck {
                match &table.cold_check {
                    Err(e) => {
                        assert(check(i as int) is Some);
                        return Err(e.duplicate());
                    },
                    Ok(()) => {},
                }
                list.push(i);
            }
            match &table.store_check {
                Err(e) => {
                    assert(check(i as int) is Some);
                    return Err(e.duplicate());
                },
                Ok(()) => {},
            }
        }
        assert(check(i as int) is None);
        i = i + 1;
    }
    match constraints {
        Err(e) => Err(e),
        Ok(()) => Ok(list),
    }
}

/// A commit that passed was checked against the segments of the moment: no
/// table with changes kept an answer from before a seal.
pub proof fn law_commit_sees_sealed_rows(tables: Seq<CommitTable>, i: int)
    requires
        0 <= i < tables.len(),
        first_refusal(0, tables.len() as int, |k: int| commit_refusal(tables[k])) is None,
        is_checked(tables[i]),
        is_rechecked(tables[i]),
    ensures
        tables[i].cold_check is Ok,
{
    let check = |k: int| commit_refusal(tables[k]);
    crate::error::lemma_no_refusal(0, tables.len() as int, check);
    assert(check(i) is None);
}

/// First of the transaction's stores with a name, up to ASCII case.
pub open spec fn store_position(names: Seq<String>, name: Seq<char>, i: int) -> Option<int>
    decreases names.len() - i,
{
    if i < 0 || i >= names.len() {
        None
    } else if same_ignoring_ascii_case(names[i]@, name) {
        Some(i)
    } else {
        store_position(names, name, i + 1)
    }
}

fn find_store(names: &Vec<String>, name: &str) -> (r: Option<usize>)
    ensures
        match r {
            Some(i) => store_position(names@, name@, 0) == Some(i as int),
            None => store_position(names@, name@, 0) is None,
        },
{
    let mut i: usize = 0;
    while i < names.len()
        invariant
            0 <= i <= names@.len(),
            store_position(names@, name@, 0) == store_position(names@, name@, i as int),
        decreases names@.len() - i,
    {
        if eq_ignore_ascii_case(names[i].as_str(), name) {
            return Some(i);
        }
        i = i + 1;
    }
    None
}

/// The store that a staged schema replaces the schema of.
pub fn stage_schema_change(names: &Vec<String>, table_name: &str) -> (r: Result<usize, Error>)
    ensures
        refusal(r) == (if store_position(names@, table_name@, 0) is None {
            Some(ErrorView::Internal("transaction schema store was not initialized"@))
        } else {
            None
        }),
        r matches Ok(i) ==> store_position(names@, table_name@, 0) == Some(i as int),
{
    match find_store(names, table_name) {
        Some(i) => Ok(i),
        None => Err(Error::internal("transaction schema store was not initialized")),
    }
}

/// The store that stops using a dropped index.
pub fn stage_index_drop(names: &Vec<String>, table_name: &str) -> (r: Result<usize, Error>)
    ensures
        refusal(r) == (if store_position(names@, table_name@, 0) is None {
            Some(ErrorView::Internal("transaction index-drop store was not initialized"@))
        } else {
            None
        }),
        r matches Ok(i) ==> store_position(names@, table_name@, 0) == Some(i as int),
{
    match find_store(names, table_name) {
        Some(i) => Ok(i),
        None => Err(Error::internal("transaction index-drop store was not initialized")),
    }
}

} // verus!
