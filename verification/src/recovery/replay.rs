//! Replay of the row log onto recovered tables.
//!
//! Row records precede the marker of their transaction. Deletes of cold rows
//! stay private to their transaction until that marker supplies the sequence
//! at which they become visible.
use super::artifacts::RuntimeTable;
use crate::error::first_refusal;
use crate::error::refusal;
use crate::error::Error;
use crate::error::ErrorView;
use crate::fx::none_touched;
use crate::fx::row_set;
use crate::fx::row_set_contains;
use crate::fx::tombstone_get;
use crate::fx::tombstone_insert;
use crate::fx::tombstone_map;
use crate::fx::touched_insert;
use crate::fx::touched_remove;
use crate::namelist::NameList;
use crate::model::option_view;
use crate::names::NameMap;
use crate::text::decimal;
use crate::text::decimal_digits;
use crate::text::signed_decimal;
use crate::text::signed_decimal_digits;
use rustc_hash::FxHashMap;
use rustc_hash::FxHashSet;
use vstd::prelude::*;
use vstd::string::StringExecFns;

verus! {

/// What a log record does.
#[derive(Debug, Clone, Copy, PartialEq, Eq, Structural)]
pub enum WalOperation {
    Insert,
    Update,
    Delete,
    Commit,
    Rollback,
    TruncateTable,
    CatalogMutation,
}

pub open spec fn operation_label(operation: WalOperation) -> Seq<char> {
    match operation {
        WalOperation::Insert => "Insert"@,
        WalOperation::Update => "Update"@,
        WalOperation::Delete => "Delete"@,
        WalOperation::Commit => "Commit"@,
        WalOperation::Rollback => "Rollback"@,
        WalOperation::TruncateTable => "TruncateTable"@,
        WalOperation::CatalogMutation => "CatalogMutation"@,
    }
}

impl WalOperation {
    /// The name of the operation in messages.
    pub fn label(self) -> (text: &'static str)
        ensures
            text@ == operation_label(self),
    {
        match self {
            WalOperation::Insert => "Insert",
            WalOperation::Update => "Update",
            WalOperation::Delete => "Delete",
            WalOperation::Commit => "Commit",
            WalOperation::Rollback => "Rollback",
            WalOperation::TruncateTable => "TruncateTable",
            WalOperation::CatalogMutation => "CatalogMutation",
        }
    }
}

/// One log record. `payload` says which transaction its row version names, or
/// why it could not be decoded.
#[derive(Debug)]
pub struct WalEntry {
    pub lsn: u64,
    pub txn_id: i64,
    pub row_id: i64,
    pub operation: WalOperation,
    pub payload: Result<i64, String>,
}

/// The cold side of one table during replay.
#[derive(Debug)]
pub struct ColdTable {
    /// Rows that a segment holds.
    pub volume_rows: FxHashSet<i64>,
    /// Deleted rows, with the sequence of their deletion.
    pub tombstones: FxHashMap<i64, u64>,
    /// Deletions of transactions without a marker yet.
    pub pending: Vec<(i64, i64)>,
}

#[verifier::ext_equal]
pub struct ColdTableView {
    pub volume_rows: Set<i64>,
    pub tombstones: Map<i64, u64>,
    pub pending: Seq<(i64, i64)>,
}

impl View for ColdTable {
    type V = ColdTableView;

    open spec fn view(&self) -> ColdTableView {
        ColdTableView {
            volume_rows: self.volume_rows@,
            tombstones: self.tombstones@,
            pending: self.pending@,
        }
    }
}

pub open spec fn empty_cold() -> ColdTableView {
    ColdTableView { volume_rows: Set::empty(), tombstones: Map::empty(), pending: Seq::empty() }
}

pub type ColdTables = Map<Seq<char>, ColdTableView>;

/// Tables in which each transaction deleted cold rows.
pub type Touched = Map<i64, Seq<Seq<char>>>;

/// The cold side of replay.
#[derive(Debug)]
pub struct ReplayState {
    pub cold: NameMap<ColdTable>,
    pub touched: FxHashMap<i64, NameList>,
}

#[verifier::ext_equal]
pub struct ReplayView {
    pub cold: ColdTables,
    pub touched: Touched,
}

pub open spec fn touched_view(map: Map<i64, NameList>) -> Touched {
    map.map_values(|names: NameList| names@)
}

pub open spec fn cold_views(map: Map<Seq<char>, ColdTable>) -> ColdTables {
    map.map_values(|table: ColdTable| table@)
}

impl View for ReplayState {
    type V = ReplayView;

    open spec fn view(&self) -> ReplayView {
        ReplayView { cold: cold_views(self.cold@), touched: touched_view(self.touched@) }
    }
}

/// The cold side of a table, made on first use.
pub open spec fn cold_of(cold: ColdTables, name: Seq<char>) -> ColdTableView {
    if cold.dom().contains(name) {
        cold[name]
    } else {
        empty_cold()
    }
}

pub open spec fn ensured(cold: ColdTables, name: Seq<char>) -> ColdTables {
    cold.insert(name, cold_of(cold, name))
}

/// Whether a row was superseded by an earlier record.
pub open spec fn is_superseded(table: ColdTableView, txn_id: i64, row_id: i64) -> bool {
    table.tombstones.dom().contains(row_id) || table.pending.contains((txn_id, row_id))
}

/// Tables that a transaction deleted cold rows of.
pub open spec fn tables_of(touched: Touched, txn_id: i64) -> Seq<Seq<char>> {
    if touched.dom().contains(txn_id) {
        touched[txn_id]
    } else {
        Seq::empty()
    }
}

/// Notes that a transaction deleted a cold row of a table.
pub open spec fn with_touch(touched: Touched, txn_id: i64, name: Seq<char>) -> Touched {
    let names = tables_of(touched, txn_id);
    touched.insert(
        txn_id,
        if names.contains(name) {
            names
        } else {
            names.push(name)
        },
    )
}

/// Pending deletions of the first `n` that belong to a transaction take
/// effect at a sequence.
pub open spec fn committed_tombstones(
    table: ColdTableView,
    txn_id: i64,
    commit_seq: u64,
    n: int,
) -> Map<i64, u64>
    decreases n,
{
    if n <= 0 {
        table.tombstones
    } else {
        let before = committed_tombstones(table, txn_id, commit_seq, n - 1);
        if table.pending[n - 1].0 == txn_id {
            before.insert(table.pending[n - 1].1, commit_seq)
        } else {
            before
        }
    }
}

/// The first `n` pending deletions without those of a transaction.
pub open spec fn others_pending(pending: Seq<(i64, i64)>, txn_id: i64, n: int) -> Seq<(i64, i64)>
    decreases n,
{
    if n <= 0 {
        Seq::empty()
    } else if pending[n - 1].0 == txn_id {
        others_pending(pending, txn_id, n - 1)
    } else {
        others_pending(pending, txn_id, n - 1).push(pending[n - 1])
    }
}

/// A table after a transaction's deletions took effect.
pub open spec fn committed_table(
    table: ColdTableView,
    txn_id: i64,
    commit_seq: u64,
) -> ColdTableView {
    let n = table.pending.len() as int;
    ColdTableView {
        tombstones: committed_tombstones(table, txn_id, commit_seq, n),
        pending: others_pending(table.pending, txn_id, n),
        ..table
    }
}

/// A table after a transaction's deletions were taken back.
pub open spec fn rolled_back_table(table: ColdTableView, txn_id: i64) -> ColdTableView {
    ColdTableView {
        pending: others_pending(table.pending, txn_id, table.pending.len() as int),
        ..table
    }
}

/// Settles a transaction's deletions table by table.
pub open spec fn with_committed(
    cold: ColdTables,
    names: Seq<Seq<char>>,
    txn_id: i64,
    commit_seq: u64,
    i: int,
) -> Result<ColdTables, ErrorView>
    decreases names.len() - i,
{
    if i < 0 || i >= names.len() {
        Ok(cold)
    } else if !cold.dom().contains(names[i]) {
        Err(
            ErrorView::Internal(
                "WAL commit for transaction "@ + signed_decimal_digits(txn_id as int)
                    + " lost tombstone table '"@ + names[i] + "'"@,
            ),
        )
    } else {
        with_committed(
            cold.insert(names[i], committed_table(cold[names[i]], txn_id, commit_seq)),
            names,
            txn_id,
            commit_seq,
            i + 1,
        )
    }
}

pub open spec fn with_rolled_back(
    cold: ColdTables,
    names: Seq<Seq<char>>,
    txn_id: i64,
    i: int,
) -> ColdTables
    decreases names.len() - i,
{
    if i < 0 || i >= names.len() {
        cold
    } else {
        with_rolled_back(
            if cold.dom().contains(names[i]) {
                cold.insert(names[i], rolled_back_table(cold[names[i]], txn_id))
            } else {
                cold
            },
            names,
            txn_id,
            i + 1,
        )
    }
}

/// What has to happen outside the cold side.
#[derive(Debug, Clone, Copy, PartialEq, Eq, Structural)]
pub enum ReplayAction {
    /// The row version goes into the hot store.
    ApplyVersion,
    /// A segment already holds the row.
    SkipSealed,
    /// The hot row is marked as deleted.
    MarkDeleted,
    /// The transaction committed at this sequence.
    Commit { sequence: i64 },
    Abort,
    /// The table loses all its rows.
    Truncate,
    /// The record belongs to the catalog.
    Ignore,
}

pub open spec fn decode_error(entry: WalEntry, text: Seq<char>) -> ErrorView {
    ErrorView::Internal(
        "failed to decode "@ + operation_label(entry.operation) + " WAL entry at LSN "@
            + decimal_digits(entry.lsn as nat) + ": "@ + text,
    )
}

pub open spec fn identity_mismatch(entry: WalEntry, payload: i64) -> ErrorView {
    ErrorView::Internal(
        "WAL transaction identity mismatch at LSN "@ + decimal_digits(entry.lsn as nat)
            + ": envelope "@ + signed_decimal_digits(entry.txn_id as int) + " != payload "@
            + signed_decimal_digits(payload as int),
    )
}

pub open spec fn unowned_error(entry: WalEntry) -> ErrorView {
    ErrorView::Internal(
        "WAL "@ + operation_label(entry.operation) + " at LSN "@ + decimal_digits(
            entry.lsn as nat,
        ) + " has no live catalog table identity"@,
    )
}

/// Replay of a row version. A row that a segment holds is the sealed original
/// unless an earlier record superseded it.
pub open spec fn replayed_version(before: ReplayView, entry: WalEntry, table: Option<Seq<char>>) -> Result<
    (ReplayView, ReplayAction),
    ErrorView,
> {
    match entry.payload {
        Err(text) => Err(decode_error(entry, text@)),
        Ok(payload) => if payload != entry.txn_id {
            Err(identity_mismatch(entry, payload))
        } else {
            match table {
                None => Err(unowned_error(entry)),
                Some(name) => {
                    let cold = cold_of(before.cold, name);
                    let next = ReplayView { cold: ensured(before.cold, name), ..before };
                    if cold.volume_rows.contains(entry.row_id) && !is_superseded(
                        cold,
                        entry.txn_id,
                        entry.row_id,
                    ) && entry.operation != WalOperation::Update {
                        Ok((next, ReplayAction::SkipSealed))
                    } else {
                        Ok((next, ReplayAction::ApplyVersion))
                    }
                },
            }
        },
    }
}

/// Replay of a delete.
pub open spec fn replayed_delete(before: ReplayView, entry: WalEntry, table: Option<Seq<char>>) -> Result<
    (ReplayView, ReplayAction),
    ErrorView,
> {
    match table {
        None => Err(unowned_error(entry)),
        Some(name) => {
            let cold = cold_of(before.cold, name);
            if cold.volume_rows.contains(entry.row_id) {
                Ok(
                    (
                        ReplayView {
                            cold: before.cold.insert(
                                name,
                                ColdTableView {
                                    pending: cold.pending.push((entry.txn_id, entry.row_id)),
                                    ..cold
                                },
                            ),
                            touched: with_touch(before.touched, entry.txn_id, name),
                        },
                        ReplayAction::MarkDeleted,
                    ),
                )
            } else {
                Ok(
                    (
                        ReplayView { cold: ensured(before.cold, name), ..before },
                        ReplayAction::MarkDeleted,
                    ),
                )
            }
        },
    }
}

/// Replay of a commit marker. Its log position is the commit sequence.
pub open spec fn replayed_commit(before: ReplayView, entry: WalEntry) -> Result<
    (ReplayView, ReplayAction),
    ErrorView,
> {
    if entry.lsn > i64::MAX {
        Err(
            ErrorView::Internal(
                "WAL commit LSN "@ + decimal_digits(entry.lsn as nat)
                    + " exceeds the MVCC sequence domain"@,
            ),
        )
    } else {
        match with_committed(
            before.cold,
            tables_of(before.touched, entry.txn_id),
            entry.txn_id,
            entry.lsn,
            0,
        ) {
            Err(e) => Err(e),
            Ok(cold) => Ok(
                (
                    ReplayView { cold, touched: before.touched.remove(entry.txn_id) },
                    ReplayAction::Commit { sequence: entry.lsn as i64 },
                ),
            ),
        }
    }
}

/// What one log record does.
pub open spec fn replayed(before: ReplayView, entry: WalEntry, table: Option<Seq<char>>) -> Result<
    (ReplayView, ReplayAction),
    ErrorView,
> {
    match entry.operation {
        WalOperation::Insert | WalOperation::Update => replayed_version(before, entry, table),
        WalOperation::Delete => replayed_delete(before, entry, table),
        WalOperation::Commit => replayed_commit(before, entry),
        WalOperation::Rollback => Ok(
            (
                ReplayView {
                    cold: with_rolled_back(
                        before.cold,
                        tables_of(before.touched, entry.txn_id),
                        entry.txn_id,
                        0,
                    ),
                    touched: before.touched.remove(entry.txn_id),
                },
                ReplayAction::Abort,
            ),
        ),
        WalOperation::TruncateTable => match table {
            None => Err(unowned_error(entry)),
            Some(name) => Ok(
                (
                    ReplayView {
                        cold: if before.cold.dom().contains(name) {
                            before.cold.insert(name, empty_cold())
                        } else {
                            before.cold
                        },
                        ..before
                    },
                    ReplayAction::Truncate,
                ),
            ),
        },
        WalOperation::CatalogMutation => Ok((before, ReplayAction::Ignore)),
    }
}

fn empty_table() -> (table: ColdTable)
    ensures
        table@ == empty_cold(),
{
    let table = ColdTable {
        volume_rows: row_set(),
        tombstones: tombstone_map(),
        pending: Vec::new(),
    };
    assert(table@ =~= empty_cold()) by {
        assert(table.tombstones@ =~= Map::<i64, u64>::empty());
    }
    table
}

proof fn lemma_cold_view_insert(map: Map<Seq<char>, ColdTable>, name: Seq<char>, table: ColdTable)
    ensures
        cold_views(map.insert(name, table)) == cold_views(map).insert(name, table@),
{
    assert(cold_views(map.insert(name, table)) =~= cold_views(map).insert(name, table@));
}

proof fn lemma_cold_view_remove(map: Map<Seq<char>, ColdTable>, name: Seq<char>)
    ensures
        cold_views(map.remove(name)) == cold_views(map).remove(name),
{
    assert(cold_views(map.remove(name)) =~= cold_views(map).remove(name));
}

fn take_table(cold: &mut NameMap<ColdTable>, name: &str) -> (table: ColdTable)
    requires
        old(cold).wf(),
    ensures
        final(cold).wf(),
        table@ == cold_of(cold_views(old(cold)@), name@),
        cold_views(final(cold)@) == cold_views(old(cold)@).remove(name@),
{
    proof {
        lemma_cold_view_remove(cold@, name@);
    }
    match cold.remove(name) {
        Some(table) => table,
        None => empty_table(),
    }
}

fn put_table(cold: &mut NameMap<ColdTable>, name: &str, table: ColdTable)
    requires
        old(cold).wf(),
    ensures
        final(cold).wf(),
        cold_views(final(cold)@) == cold_views(old(cold)@).insert(name@, table@),
{
    proof {
        lemma_cold_view_insert(cold@, name@, table);
    }
    cold.insert(String::from_str(name), table);
}

fn touch(touched: &mut FxHashMap<i64, NameList>, txn_id: i64, name: &str)
    ensures
        touched_view(final(touched)@) == with_touch(touched_view(old(touched)@), txn_id, name@),
{
    let ghost before = touched@;
    let mut names: NameList = take_txn(touched, txn_id);
    names.add_once(name);
    touched_insert(touched, txn_id, names);
    assert(touched_view(touched@) =~= with_touch(touched_view(before), txn_id, name@));
}

fn take_txn(touched: &mut FxHashMap<i64, NameList>, txn_id: i64) -> (names: NameList)
    ensures
        names@ == tables_of(touched_view(old(touched)@), txn_id),
        final(touched)@ == old(touched)@.remove(txn_id),
        touched_view(final(touched)@) == touched_view(old(touched)@).remove(txn_id),
{
    let ghost before = touched@;
    let found: Option<NameList> = touched_remove(touched, txn_id);
    assert(touched_view(touched@) =~= touched_view(before).remove(txn_id));
    match found {
        Some(names) => names,
        None => NameList::new(),
    }
}

fn settle(table: &mut ColdTable, txn_id: i64, commit_seq: Option<u64>)
    ensures
        match commit_seq {
            Some(s) => final(table)@ == committed_table(old(table)@, txn_id, s),
            None => final(table)@ == rolled_back_table(old(table)@, txn_id),
        },
{
    let ghost before = table@;
    let mut kept: Vec<(i64, i64)> = Vec::new();
    let mut i: usize = 0;
    while i < table.pending.len()
        invariant
            0 <= i <= table.pending@.len(),
            table.pending@ == before.pending,
            table.volume_rows@ == before.volume_rows,
            kept@ == others_pending(before.pending, txn_id, i as int),
            match commit_seq {
                Some(s) => table.tombstones@ == committed_tombstones(
                    before,
                    txn_id,
                    s,
                    i as int,
                ),
                None => table.tombstones@ == before.tombstones,
            },
        decreases table.pending@.len() - i,
    {
        let (txn, row): (i64, i64) = table.pending[i];
        if txn == txn_id {
            if let Some(sequence) = commit_seq {
                tombstone_insert(&mut table.tombstones, row, sequence);
            }
        } else {
            kept.push((txn, row));
        }
        i = i + 1;
    }
    table.pending = kept;
}

fn unowned(entry: &WalEntry) -> (e: Error)
    ensures
        e@ == unowned_error(*entry),
{
    Error::Internal {
        message: String::from_str("WAL ").concat(entry.operation.label()).concat(
            " at LSN ",
        ).concat(decimal(entry.lsn).as_str()).concat(" has no live catalog table identity"),
    }
}

/// Whether replay ended in this way.
pub open spec fn replay_agrees(
    wanted: Result<(ReplayView, ReplayAction), ErrorView>,
    after: ReplayView,
    r: Result<ReplayAction, Error>,
) -> bool {
    match r {
        Ok(action) => wanted == Ok::<(ReplayView, ReplayAction), ErrorView>((after, action)),
        Err(e) => wanted == Err::<(ReplayView, ReplayAction), ErrorView>(e@),
    }
}

fn replay_version(state: &mut ReplayState, entry: &WalEntry, table_name: &Option<String>) -> (r:
    Result<ReplayAction, Error>)
    requires
        old(state).cold.wf(),
        entry.operation == WalOperation::Insert || entry.operation == WalOperation::Update,
    ensures
        final(state).cold.wf(),
        replay_agrees(
            replayed_version(old(state)@, *entry, option_view(*table_name)),
            final(state)@,
            r,
        ),
{
    let payload: i64 = match &entry.payload {
        Ok(payload) => *payload,
        Err(text) => {
            return Err(
                Error::Internal {
                    message: String::from_str("failed to decode ").concat(
                        entry.operation.label(),
                    ).concat(" WAL entry at LSN ").concat(decimal(entry.lsn).as_str()).concat(
                        ": ",
                    ).concat(text.as_str()),
                },
            );
        },
    };
    if payload != entry.txn_id {
        return Err(
            Error::Internal {
                message: String::from_str("WAL transaction identity mismatch at LSN ").concat(
                    decimal(entry.lsn).as_str(),
                ).concat(": envelope ").concat(signed_decimal(entry.txn_id).as_str()).concat(
                    " != payload ",
                ).concat(signed_decimal(payload).as_str()),
            },
        );
    }
    let name: &String = match table_name {
        Some(name) => name,
        None => {
            return Err(unowned(entry));
        },
    };
    let ghost before = state@;
    let table: ColdTable = take_table(&mut state.cold, name.as_str());
    let mut superseded: bool = tombstone_get(&table.tombstones, entry.row_id).is_some();
    let mut i: usize = 0;
    while i < table.pending.len()
        invariant
            0 <= i <= table.pending@.len(),
            superseded == (table.tombstones@.dom().contains(entry.row_id) || exists|k: int|
                0 <= k < i && #[trigger] table.pending@[k] == (entry.txn_id, entry.row_id)),
        decreases table.pending@.len() - i,
    {
        if table.pending[i].0 == entry.txn_id && table.pending[i].1 == entry.row_id {
            superseded = true;
            assert(table.pending@[i as int] == (entry.txn_id, entry.row_id));
        }
        i = i + 1;
    }
    assert(superseded == is_superseded(table@, entry.txn_id, entry.row_id));
    let sealed: bool = row_set_contains(&table.volume_rows, entry.row_id) && !superseded
        && entry.operation != WalOperation::Update;
    put_table(&mut state.cold, name.as_str(), table);
    assert(before.cold.remove(name@).insert(name@, table@) =~= ensured(before.cold, name@));
    if sealed {
        Ok(ReplayAction::SkipSealed)
    } else {
        Ok(ReplayAction::ApplyVersion)
    }
}

fn replay_delete(state: &mut ReplayState, entry: &WalEntry, table_name: &Option<String>) -> (r:
    Result<ReplayAction, Error>)
    requires
        old(state).cold.wf(),
    ensures
        final(state).cold.wf(),
        replay_agrees(
            replayed_delete(old(state)@, *entry, option_view(*table_name)),
            final(state)@,
            r,
        ),
{
    let name: &String = match table_name {
        Some(name) => name,
        None => {
            return Err(unowned(entry));
        },
    };
    let ghost before = state@;
    let mut table: ColdTable = take_table(&mut state.cold, name.as_str());
    let ghost held = table@;
    let in_volume: bool = row_set_contains(&table.volume_rows, entry.row_id);
    if in_volume {
        table.pending.push((entry.txn_id, entry.row_id));
        touch(&mut state.touched, entry.txn_id, name.as_str());
    }
    put_table(&mut state.cold, name.as_str(), table);
    assert(before.cold.remove(name@).insert(name@, table@) =~= before.cold.insert(name@, table@));
    Ok(ReplayAction::MarkDeleted)
}

fn replay_commit(state: &mut ReplayState, entry: &WalEntry) -> (r: Result<ReplayAction, Error>)
    requires
        old(state).cold.wf(),
    ensures
        final(state).cold.wf(),
        replay_agrees(replayed_commit(old(state)@, *entry), final(state)@, r),
{
    if entry.lsn > i64::MAX as u64 {
        return Err(
            Error::Internal {
                message: String::from_str("WAL commit LSN ").concat(
                    decimal(entry.lsn).as_str(),
                ).concat(" exceeds the MVCC sequence domain"),
            },
        );
    }
    let ghost before = state@;
    let names: NameList = take_txn(&mut state.touched, entry.txn_id);
    let ghost list = names@;
    let ghost wanted = with_committed(before.cold, list, entry.txn_id, entry.lsn, 0);
    let mut i: usize = 0;
    while i < names.len()
        invariant
            0 <= i <= names@.len(),
            state.cold.wf(),
            list == names@,
            before == old(state)@,
            list == tables_of(before.touched, entry.txn_id),
            entry.lsn <= i64::MAX,
            touched_view(state.touched@) == before.touched.remove(entry.txn_id),
            wanted == with_committed(before.cold, list, entry.txn_id, entry.lsn, 0),
            wanted == with_committed(
                cold_views(state.cold@),
                list,
                entry.txn_id,
                entry.lsn,
                i as int,
            ),
        decreases names@.len() - i,
    {
        let name: &str = names.name_at(i);
        let ghost held = cold_views(state.cold@);
        if !state.cold.contains_key(name) {
            return Err(
                Error::Internal {
                    message: String::from_str("WAL commit for transaction ").concat(
                        signed_decimal(entry.txn_id).as_str(),
                    ).concat(" lost tombstone table '").concat(name).concat("'"),
                },
            );
        }
        let mut table: ColdTable = take_table(&mut state.cold, name);
        settle(&mut table, entry.txn_id, Some(entry.lsn));
        put_table(&mut state.cold, name, table);
        assert(held.remove(name@).insert(name@, table@) =~= held.insert(name@, table@));
        i = i + 1;
    }
    Ok(ReplayAction::Commit { sequence: entry.lsn as i64 })
}

fn replay_rollback(state: &mut ReplayState, entry: &WalEntry)
    requires
        old(state).cold.wf(),
    ensures
        final(state).cold.wf(),
        final(state)@ == (ReplayView {
            cold: with_rolled_back(
                old(state)@.cold,
                tables_of(old(state)@.touched, entry.txn_id),
                entry.txn_id,
                0,
            ),
            touched: old(state)@.touched.remove(entry.txn_id),
        }),
{
    let ghost before = state@;
    let names: NameList = take_txn(&mut state.touched, entry.txn_id);
    let ghost list = names@;
    let ghost wanted = with_rolled_back(before.cold, list, entry.txn_id, 0);
    let mut i: usize = 0;
    while i < names.len()
        invariant
            0 <= i <= names@.len(),
            state.cold.wf(),
            list == names@,
            touched_view(state.touched@) == before.touched.remove(entry.txn_id),
            wanted == with_rolled_back(cold_views(state.cold@), list, entry.txn_id, i as int),
        decreases names@.len() - i,
    {
        let name: &str = names.name_at(i);
        let ghost held = cold_views(state.cold@);
        if state.cold.contains_key(name) {
            let mut table: ColdTable = take_table(&mut state.cold, name);
            settle(&mut table, entry.txn_id, None);
            put_table(&mut state.cold, name, table);
            assert(held.remove(name@).insert(name@, table@) =~= held.insert(name@, table@));
        }
        i = i + 1;
    }
}

/// Applies one log record to the cold side and says what has to happen
/// elsewhere. `table_name` is the table that the record's identity belongs
/// to.
pub fn apply_wal_entry_resolved(
    state: &mut ReplayState,
    entry: &WalEntry,
    table_name: &Option<String>,
) -> (r: Result<ReplayAction, Error>)
    requires
        old(state).cold.wf(),
    ensures
        final(state).cold.wf(),
        replay_agrees(
            replayed(old(state)@, *entry, option_view(*table_name)),
            final(state)@,
            r,
        ),
{
    match entry.operation {
        WalOperation::Insert | WalOperation::Update => replay_version(state, entry, table_name),
        WalOperation::Delete => replay_delete(state, entry, table_name),
        WalOperation::Commit => replay_commit(state, entry),
        WalOperation::Rollback => {
            replay_rollback(state, entry);
            Ok(ReplayAction::Abort)
        },
        WalOperation::TruncateTable => {
            let name: &String = match table_name {
                Some(name) => name,
                None => {
                    return Err(unowned(entry));
                },
            };
            if state.cold.contains_key(name.as_str()) {
                put_table(&mut state.cold, name.as_str(), empty_table());
            }
            Ok(ReplayAction::Truncate)
        },
        WalOperation::CatalogMutation => Ok(ReplayAction::Ignore),
    }
}

/// How many records replay applied and passed over.
#[derive(Debug, Clone, Copy, PartialEq, Eq, Structural)]
pub struct ReplayCounters {
    pub applied: u64,
    pub irrelevant: u64,
}

/// Whether replay passes a record over: the catalog owns it, or its table was
/// created and dropped within the log.
pub open spec fn is_irrelevant(operation: WalOperation, has_live_table: bool) -> bool {
    match operation {
        WalOperation::CatalogMutation => true,
        WalOperation::Insert
        | WalOperation::Update
        | WalOperation::Delete
        | WalOperation::TruncateTable => !has_live_table,
        WalOperation::Commit | WalOperation::Rollback => false,
    }
}

/// What replaying one record leaves and reports.
pub open spec fn entry_replayed(
    before: ReplayState,
    seen: ReplayCounters,
    entry: WalEntry,
    table_name: Option<Seq<char>>,
    after: ReplayState,
    counted: ReplayCounters,
    r: Result<ReplayAction, Error>,
) -> bool {
    if is_irrelevant(entry.operation, table_name is Some) {
        &&& r == Ok::<ReplayAction, Error>(ReplayAction::Ignore)
        &&& after == before
        &&& counted.applied == seen.applied
        &&& counted.irrelevant == crate::num::sat64(seen.irrelevant + 1)
    } else {
        &&& replay_agrees(replayed(before@, entry, table_name), after@, r)
        &&& counted.irrelevant == seen.irrelevant
        &&& counted.applied == if r is Ok {
            crate::num::sat64(seen.applied + 1)
        } else {
            seen.applied as int
        }
    }
}

/// Replays one record, unless it is irrelevant.
pub fn replay_entry(
    state: &mut ReplayState,
    counters: &mut ReplayCounters,
    entry: &WalEntry,
    table_name: &Option<String>,
) -> (r: Result<ReplayAction, Error>)
    requires
        old(state).cold.wf(),
    ensures
        final(state).cold.wf(),
        entry_replayed(
            *old(state),
            *old(counters),
            *entry,
            option_view(*table_name),
            *final(state),
            *final(counters),
            r,
        ),
{
    let irrelevant: bool = match entry.operation {
        WalOperation::CatalogMutation => true,
        WalOperation::Insert
        | WalOperation::Update
        | WalOperation::Delete
        | WalOperation::TruncateTable => table_name.is_none(),
        WalOperation::Commit | WalOperation::Rollback => false,
    };
    if irrelevant {
        counters.irrelevant = counters.irrelevant.saturating_add(1);
        return Ok(ReplayAction::Ignore);
    }
    let r: Result<ReplayAction, Error> = apply_wal_entry_resolved(state, entry, table_name);
    if r.is_ok() {
        counters.applied = counters.applied.saturating_add(1);
    }
    r
}

pub open spec fn wal_identity_refusal(table: RuntimeTable) -> Option<ErrorView> {
    match table.catalog_id {
        Ok(_) => None,
        Err(text) => Some(
            ErrorView::Internal(
                "runtime table '"@ + table.name@ + "' has invalid WAL identity: "@ + text@,
            ),
        ),
    }
}

pub open spec fn wal_identity_check(tables: Seq<RuntimeTable>) -> spec_fn(int) -> Option<ErrorView> {
    |i: int| wal_identity_refusal(tables[i])
}

/// Refuses tables that log records could not name.
pub fn check_wal_identities(tables: &Vec<RuntimeTable>) -> (r: Result<(), Error>)
    ensures
        refusal(r) == first_refusal(0, tables@.len() as int, wal_identity_check(tables@)),
{
    let ghost check = wal_identity_check(tables@);
    let ghost n = tables@.len() as int;
    let mut i: usize = 0;
    while i < tables.len()
        invariant
            0 <= i <= tables@.len(),
            n == tables@.len(),
            check == wal_identity_check(tables@),
            first_refusal(0, n, check) == first_refusal(i as int, n, check),
        decreases tables@.len() - i,
    {
        let ghost found = check(i as int);
        match &tables[i].catalog_id {
            Ok(_) => {
                assert(found is None);
            },
            Err(text) => {
                assert(found is Some);
                return Err(
                    Error::Internal {
                        message: String::from_str("runtime table '").concat(
                            tables[i].name.as_str(),
                        ).concat("' has invalid WAL identity: ").concat(text.as_str()),
                    },
                );
            },
        }
        i = i + 1;
    }
    Ok(())
}

/// Stored name of the table below `n` that an identity belongs to.
pub open spec fn wal_owner(tables: Seq<RuntimeTable>, id: u128, n: int) -> Option<Seq<char>>
    decreases n,
{
    if n <= 0 {
        None
    } else if tables[n - 1].catalog_id == Ok::<u128, String>(id) {
        Some(tables[n - 1].name_lower@)
    } else {
        wal_owner(tables, id, n - 1)
    }
}

/// Stored name of the table that a record belongs to, where it has a live one.
pub open spec fn record_owner(tables: Seq<RuntimeTable>, table_id: Option<u128>) -> Option<
    Seq<char>,
> {
    match table_id {
        Some(id) => wal_owner(tables, id, tables.len() as int),
        None => None,
    }
}

/// Resolves the table that a record names.
pub fn resolve_wal_table(tables: &Vec<RuntimeTable>, table_id: Option<u128>) -> (r: Option<String>)
    ensures
        option_view(r) == record_owner(tables@, table_id),
{
    let id: u128 = match table_id {
        Some(id) => id,
        None => {
            return None;
        },
    };
    let mut n: usize = tables.len();
    while n > 0
        invariant
            0 <= n <= tables@.len(),
            wal_owner(tables@, id, tables@.len() as int) == wal_owner(tables@, id, n as int),
            table_id == Some(id),
        decreases n,
    {
        if let Ok(found) = tables[n - 1].catalog_id {
            if found == id {
                return Some(tables[n - 1].name_lower.clone());
            }
        }
        n = n - 1;
    }
    None
}

/// Replays one record on the table that its identity belongs to.
pub fn replay_wal_record(
    state: &mut ReplayState,
    counters: &mut ReplayCounters,
    entry: &WalEntry,
    table_id: Option<u128>,
    tables: &Vec<RuntimeTable>,
) -> (r: Result<ReplayAction, Error>)
    requires
        old(state).cold.wf(),
    ensures
        final(state).cold.wf(),
        entry_replayed(
            *old(state),
            *old(counters),
            *entry,
            record_owner(tables@, table_id),
            *final(state),
            *final(counters),
            r,
        ),
{
    let table_name: Option<String> = resolve_wal_table(tables, table_id);
    replay_entry(state, counters, entry, &table_name)
}

/// Replay may not end with deletions that no marker settled.
pub fn finish_replay(state: &ReplayState) -> (r: Result<(), Error>)
    ensures
        refusal(r) == if state@.touched.dom() == Set::<i64>::empty() {
            None
        } else {
            Some(
                ErrorView::Internal(
                    "committed WAL replay left cold tombstones without a commit marker"@,
                ),
            )
        },
{
    assert(state@.touched.dom() =~= state.touched@.dom());
    if !none_touched(&state.touched) {
        return Err(
            Error::internal("committed WAL replay left cold tombstones without a commit marker"),
        );
    }
    Ok(())
}

/// A row that a segment holds and nothing superseded is not applied twice.
pub proof fn law_sealed_insert_is_not_replayed(
    before: ReplayView,
    entry: WalEntry,
    name: Seq<char>,
)
    requires
        entry.operation == WalOperation::Insert,
        entry.payload == Ok::<i64, String>(entry.txn_id),
        cold_of(before.cold, name).volume_rows.contains(entry.row_id),
        !is_superseded(cold_of(before.cold, name), entry.txn_id, entry.row_id),
    ensures
        replayed(before, entry, Some(name)) == Ok::<(ReplayView, ReplayAction), ErrorView>(
            (
                ReplayView { cold: ensured(before.cold, name), ..before },
                ReplayAction::SkipSealed,
            ),
        ),
{
}

/// A row that was rewritten after its seal is logged as a delete followed by
/// an insert of the same transaction; replay then applies the insert.
pub proof fn law_rewritten_cold_row_is_replayed(
    before: ReplayView,
    delete: WalEntry,
    insert: WalEntry,
    name: Seq<char>,
)
    requires
        delete.operation == WalOperation::Delete,
        insert.operation == WalOperation::Insert,
        insert.txn_id == delete.txn_id,
        insert.row_id == delete.row_id,
        insert.payload == Ok::<i64, String>(insert.txn_id),
    ensures
        replayed(before, delete, Some(name)) is Ok,
        replayed(replayed(before, delete, Some(name))->Ok_0.0, insert, Some(name)) is Ok,
        replayed(
            replayed(before, delete, Some(name))->Ok_0.0,
            insert,
            Some(name),
        )->Ok_0.1 == ReplayAction::ApplyVersion,
{
    let cold = cold_of(before.cold, name);
    let middle = replayed(before, delete, Some(name))->Ok_0.0;
    if cold.volume_rows.contains(delete.row_id) {
        let pending = cold.pending.push((delete.txn_id, delete.row_id));
        assert(pending[cold.pending.len() as int] == (insert.txn_id, insert.row_id));
        assert(cold_of(middle.cold, name).pending == pending);
        assert(is_superseded(cold_of(middle.cold, name), insert.txn_id, insert.row_id));
    } else {
        assert(cold_of(middle.cold, name) == cold);
    }
}

/// Every table that a transaction deleted cold rows of is known.
pub open spec fn touched_tables_known(state: ReplayView) -> bool {
    forall|txn_id: i64, i: int|
        state.touched.dom().contains(txn_id) && 0 <= i < state.touched[txn_id].len()
            ==> state.cold.dom().contains(#[trigger] state.touched[txn_id][i])
}

/// The row is deleted as of a sequence.
pub open spec fn is_deleted_at(table: ColdTableView, row_id: i64, commit_seq: u64) -> bool {
    table.tombstones.dom().contains(row_id) && table.tombstones[row_id] == commit_seq
}

proof fn lemma_committed_rows(
    table: ColdTableView,
    txn_id: i64,
    row_id: i64,
    commit_seq: u64,
    n: int,
)
    requires
        0 <= n <= table.pending.len(),
        is_deleted_at(table, row_id, commit_seq) || exists|k: int|
            0 <= k < n && #[trigger] table.pending[k] == (txn_id, row_id),
    ensures
        committed_tombstones(table, txn_id, commit_seq, n).dom().contains(row_id),
        committed_tombstones(table, txn_id, commit_seq, n)[row_id] == commit_seq,
    decreases n,
{
    if n > 0 && table.pending[n - 1] != (txn_id, row_id) {
        if !is_deleted_at(table, row_id, commit_seq) {
            let k = choose|k: int| 0 <= k < n && #[trigger] table.pending[k] == (txn_id, row_id);
            assert(0 <= k < n - 1);
        }
        lemma_committed_rows(table, txn_id, row_id, commit_seq, n - 1);
    }
}

proof fn lemma_commit_settles(
    cold: ColdTables,
    names: Seq<Seq<char>>,
    name: Seq<char>,
    txn_id: i64,
    row_id: i64,
    commit_seq: u64,
    i: int,
)
    requires
        0 <= i <= names.len(),
        forall|k: int| 0 <= k < names.len() ==> cold.dom().contains(#[trigger] names[k]),
        cold.dom().contains(name),
        is_deleted_at(cold[name], row_id, commit_seq) || cold[name].pending.contains(
            (txn_id, row_id),
        ) && exists|k: int| i <= k < names.len() && #[trigger] names[k] == name,
    ensures
        with_committed(cold, names, txn_id, commit_seq, i) is Ok,
        with_committed(cold, names, txn_id, commit_seq, i)->Ok_0.dom().contains(name),
        is_deleted_at(
            with_committed(cold, names, txn_id, commit_seq, i)->Ok_0[name],
            row_id,
            commit_seq,
        ),
    decreases names.len() - i,
{
    if i < names.len() {
        let table = cold[names[i]];
        let next = cold.insert(names[i], committed_table(table, txn_id, commit_seq));
        if names[i] == name {
            if table.pending.contains((txn_id, row_id)) {
                let k = choose|k: int|
                    0 <= k < table.pending.len() && table.pending[k] == (txn_id, row_id);
                assert(table.pending[k] == (txn_id, row_id));
            }
            lemma_committed_rows(table, txn_id, row_id, commit_seq, table.pending.len() as int);
        } else if !is_deleted_at(cold[name], row_id, commit_seq) {
            let k = choose|k: int| i <= k < names.len() && #[trigger] names[k] == name;
            assert(i + 1 <= k);
        }
        lemma_commit_settles(next, names, name, txn_id, row_id, commit_seq, i + 1);
    }
}

/// A delete of a cold row stays private to its transaction: it changes no
/// tombstone until the commit marker, and takes effect at the marker's
/// sequence.
pub proof fn law_cold_delete_waits_for_its_commit(
    before: ReplayView,
    delete: WalEntry,
    commit: WalEntry,
    name: Seq<char>,
)
    requires
        delete.operation == WalOperation::Delete,
        commit.operation == WalOperation::Commit,
        commit.txn_id == delete.txn_id,
        commit.lsn <= i64::MAX,
        touched_tables_known(before),
        cold_of(before.cold, name).volume_rows.contains(delete.row_id),
    ensures
        replayed(before, delete, Some(name)) matches Ok((middle, _)) && {
            &&& touched_tables_known(middle)
            &&& cold_of(middle.cold, name).tombstones == cold_of(before.cold, name).tombstones
            &&& replayed(middle, commit, None) matches Ok((after, _)) && after.cold.dom().contains(
                name,
            ) && is_deleted_at(after.cold[name], delete.row_id, commit.lsn)
        },
{
    let middle = replayed(before, delete, Some(name))->Ok_0.0;
    let txn_id = delete.txn_id;
    let held = tables_of(before.touched, txn_id);
    let names = tables_of(middle.touched, txn_id);
    assert(names.contains(name)) by {
        if !held.contains(name) {
            assert(names[held.len() as int] == name);
        }
    }
    assert forall|txn: i64, i: int|
        middle.touched.dom().contains(txn) && 0 <= i
            < middle.touched[txn].len() implies middle.cold.dom().contains(
        #[trigger] middle.touched[txn][i],
    ) by {
        if txn == txn_id {
            if i < held.len() {
                assert(before.cold.dom().contains(before.touched[txn_id][i]));
            }
        } else {
            assert(before.cold.dom().contains(before.touched[txn][i]));
        }
    }
    let pending = middle.cold[name].pending;
    assert(pending[cold_of(before.cold, name).pending.len() as int] == (txn_id, delete.row_id));
    assert(middle.touched[txn_id] == names);
    let k = choose|k: int| 0 <= k < names.len() && names[k] == name;
    assert(names[k] == name);
    lemma_commit_settles(
        middle.cold,
        names,
        name,
        txn_id,
        delete.row_id,
        commit.lsn,
        0,
    );
}

proof fn lemma_rollback_keeps_tombstones(
    cold: ColdTables,
    names: Seq<Seq<char>>,
    name: Seq<char>,
    txn_id: i64,
    i: int,
)
    requires
        0 <= i <= names.len(),
    ensures
        cold_of(with_rolled_back(cold, names, txn_id, i), name).tombstones == cold_of(
            cold,
            name,
        ).tombstones,
    decreases names.len() - i,
{
    if i < names.len() {
        let next = if cold.dom().contains(names[i]) {
            cold.insert(names[i], rolled_back_table(cold[names[i]], txn_id))
        } else {
            cold
        };
        lemma_rollback_keeps_tombstones(next, names, name, txn_id, i + 1);
    }
}

/// A rollback marker deletes nothing, in any table.
pub proof fn law_rollback_deletes_nothing(before: ReplayView, rollback: WalEntry, name: Seq<char>)
    requires
        rollback.operation == WalOperation::Rollback,
    ensures
        replayed(before, rollback, None) matches Ok((after, _)) && cold_of(
            after.cold,
            name,
        ).tombstones == cold_of(before.cold, name).tombstones,
{
    lemma_rollback_keeps_tombstones(
        before.cold,
        tables_of(before.touched, rollback.txn_id),
        name,
        rollback.txn_id,
        0,
    );
}

/// What the replay of the data log came to.
#[derive(Debug, Clone, Copy, PartialEq, Eq, Structural)]
pub struct DataOutcome {
    pub last_lsn: u64,
    pub committed_transactions: u64,
    pub applied_entries: u64,
    pub skipped_entries: u64,
}

/// Reports a replay that began at `floor_lsn`. The log never falls behind the
/// floor, and entries without a runtime owner count as skipped.
pub fn data_outcome(
    floor_lsn: u64,
    last_lsn: u64,
    committed_transactions: u64,
    skipped_entries: u64,
    counters: &ReplayCounters,
) -> (r: DataOutcome)
    ensures
        r.last_lsn == if last_lsn >= floor_lsn {
            last_lsn
        } else {
            floor_lsn
        },
        r.committed_transactions == committed_transactions,
        r.applied_entries == counters.applied,
        r.skipped_entries == crate::num::sat64(skipped_entries + counters.irrelevant),
{
    DataOutcome {
        last_lsn: if last_lsn >= floor_lsn {
            last_lsn
        } else {
            floor_lsn
        },
        committed_transactions,
        applied_entries: counters.applied,
        skipped_entries: skipped_entries.saturating_add(counters.irrelevant),
    }
}

} // verus!
