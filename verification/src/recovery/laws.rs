//! What replay of the log is for.
use super::artifacts::RuntimeTable;
use super::replay::committed_table;
use super::replay::committed_tombstones;
use super::replay::entry_replayed;
use super::replay::others_pending;
use super::replay::record_owner;
use super::replay::rolled_back_table;
use super::replay::wal_owner;
use super::replay::with_committed;
use super::replay::with_rolled_back;
use super::replay::ColdTableView;
use super::replay::ColdTables;
use super::replay::ReplayAction;
use super::replay::ReplayCounters;
use super::replay::ReplayState;
use super::replay::WalEntry;
use super::replay::WalOperation;
use crate::error::Error;
use vstd::prelude::*;

verus! {

/// A table's cold side is the same in both states.
pub open spec fn same_cold_table(before: ReplayState, after: ReplayState, name: Seq<char>) -> bool {
    &&& before.cold@.dom().contains(name) <==> after.cold@.dom().contains(name)
    &&& before.cold@.dom().contains(name) ==> {
        &&& after.cold@[name].volume_rows@ == before.cold@[name].volume_rows@
        &&& after.cold@[name].tombstones@ == before.cold@[name].tombstones@
        &&& after.cold@[name].pending@ == before.cold@[name].pending@
    }
}

/// The table has no cold row, no deleted row and no deletion that waits.
pub open spec fn is_cold_empty(state: ReplayState, name: Seq<char>) -> bool {
    state.cold@.dom().contains(name) ==> {
        &&& state.cold@[name].volume_rows@ == Set::<i64>::empty()
        &&& state.cold@[name].tombstones@ == Map::<i64, u64>::empty()
        &&& state.cold@[name].pending@.len() == 0
    }
}

/// A cold segment of the table holds the row.
pub open spec fn holds_cold(state: ReplayState, name: Seq<char>, row_id: i64) -> bool {
    state.cold@.dom().contains(name) && state.cold@[name].volume_rows@.contains(row_id)
}

/// The cold row is deleted for everyone.
pub open spec fn is_tombstoned(state: ReplayState, name: Seq<char>, row_id: i64) -> bool {
    state.cold@.dom().contains(name) && state.cold@[name].tombstones@.dom().contains(row_id)
}

/// A transaction deleted the cold row, and its marker is still to come.
pub open spec fn is_waiting(
    state: ReplayState,
    name: Seq<char>,
    txn_id: i64,
    row_id: i64,
) -> bool {
    state.cold@.dom().contains(name) && exists|k: int|
        0 <= k < state.cold@[name].pending@.len() && #[trigger] state.cold@[name].pending@[k] == (
            txn_id,
            row_id,
        )
}

/// Every deletion that waits is in a table that its transaction is noted for.
pub open spec fn waiting_is_noted(state: ReplayState) -> bool {
    forall|name: Seq<char>, k: int|
        state.cold@.dom().contains(name) && 0 <= k < state.cold@[name].pending@.len() ==> {
            let txn_id = (#[trigger] state.cold@[name].pending@[k]).0;
            state.touched@.dom().contains(txn_id) && state.touched@[txn_id]@.contains(name)
        }
}

/// The tables that a transaction is noted for are there.
pub open spec fn noted_tables_are_there(state: ReplayState) -> bool {
    forall|txn_id: i64, i: int|
        state.touched@.dom().contains(txn_id) && 0 <= i < state.touched@[txn_id]@.len()
            ==> state.cold@.dom().contains(#[trigger] state.touched@[txn_id]@[i])
}

proof fn lemma_cold_fields(before: ReplayState, after: ReplayState, name: Seq<char>)
    requires
        before@.cold.dom().contains(name) <==> after@.cold.dom().contains(name),
        before@.cold.dom().contains(name) ==> before@.cold[name] == after@.cold[name],
    ensures
        same_cold_table(before, after, name),
{
    if before.cold@.dom().contains(name) {
        assert(before@.cold[name] == before.cold@[name]@);
        assert(after@.cold[name] == after.cold@[name]@);
    }
}

/// A truncated table loses every cold row, every deleted row and every
/// deletion that waits; no other table changes.
pub proof fn law_truncation_empties_the_table(
    before: ReplayState,
    seen: ReplayCounters,
    truncate: WalEntry,
    name: Seq<char>,
    after: ReplayState,
    counted: ReplayCounters,
    r: Result<ReplayAction, Error>,
)
    requires
        truncate.operation == WalOperation::TruncateTable,
        entry_replayed(before, seen, truncate, Some(name), after, counted, r),
    ensures
        r == Ok::<ReplayAction, Error>(ReplayAction::Truncate),
        is_cold_empty(after, name),
        forall|other: Seq<char>| other != name ==> #[trigger] same_cold_table(before, after, other),
        after.cold@.dom() == before.cold@.dom(),
        after@.touched == before@.touched,
{
    assert(after.cold@.dom() =~= after@.cold.dom());
    assert(before.cold@.dom() =~= before@.cold.dom());
    if after.cold@.dom().contains(name) {
        assert(after@.cold[name] == after.cold@[name]@);
    }
    assert forall|other: Seq<char>| other != name implies #[trigger] same_cold_table(
        before,
        after,
        other,
    ) by {
        lemma_cold_fields(before, after, other);
    }
}

/// A row that comes into a table behind its truncation is applied, whatever
/// the segments held before.
pub proof fn law_insert_behind_truncation_is_applied(
    before: ReplayState,
    truncate: WalEntry,
    middle: ReplayState,
    insert: WalEntry,
    after: ReplayState,
    name: Seq<char>,
    seen: ReplayCounters,
    between: ReplayCounters,
    counted: ReplayCounters,
    first: Result<ReplayAction, Error>,
    second: Result<ReplayAction, Error>,
)
    requires
        truncate.operation == WalOperation::TruncateTable,
        insert.operation == WalOperation::Insert || insert.operation == WalOperation::Update,
        insert.payload == Ok::<i64, String>(insert.txn_id),
        entry_replayed(before, seen, truncate, Some(name), middle, between, first),
        entry_replayed(middle, between, insert, Some(name), after, counted, second),
    ensures
        second == Ok::<ReplayAction, Error>(ReplayAction::ApplyVersion),
{
    law_truncation_empties_the_table(before, seen, truncate, name, middle, between, first);
    if middle.cold@.dom().contains(name) {
        assert(middle@.cold[name] == middle.cold@[name]@);
    }
}

/// A row version is applied unless an insert meets its own row in a segment,
/// where nothing deleted it before. Replaying it changes no table's rows. A
/// version that cannot be read or belongs to another transaction is refused.
pub proof fn law_only_sealed_inserts_are_skipped(
    before: ReplayState,
    seen: ReplayCounters,
    entry: WalEntry,
    name: Seq<char>,
    after: ReplayState,
    counted: ReplayCounters,
    r: Result<ReplayAction, Error>,
)
    requires
        entry.operation == WalOperation::Insert || entry.operation == WalOperation::Update,
        entry_replayed(before, seen, entry, Some(name), after, counted, r),
    ensures
        r is Ok <==> entry.payload == Ok::<i64, String>(entry.txn_id),
        r matches Ok(action) ==> {
            &&& action == ReplayAction::SkipSealed <==> {
                &&& entry.operation == WalOperation::Insert
                &&& holds_cold(before, name, entry.row_id)
                &&& !is_tombstoned(before, name, entry.row_id)
                &&& !is_waiting(before, name, entry.txn_id, entry.row_id)
            }
            &&& action != ReplayAction::SkipSealed ==> action == ReplayAction::ApplyVersion
            &&& before.cold@.dom().contains(name) ==> same_cold_table(before, after, name)
            &&& !before.cold@.dom().contains(name) ==> is_cold_empty(after, name)
            &&& forall|other: Seq<char>|
                other != name ==> #[trigger] same_cold_table(before, after, other)
            &&& after@.touched == before@.touched
        },
{
    if before.cold@.dom().contains(name) {
        assert(before@.cold[name] == before.cold@[name]@);
        let pending = before.cold@[name].pending@;
        assert(pending.contains((entry.txn_id, entry.row_id)) == is_waiting(
            before,
            name,
            entry.txn_id,
            entry.row_id,
        ));
    }
    if r is Ok {
        assert(after@.cold.dom().contains(name));
        assert(after@.cold[name] == after.cold@[name]@);
        if before.cold@.dom().contains(name) {
            lemma_cold_fields(before, after, name);
        }
        assert forall|other: Seq<char>| other != name implies #[trigger] same_cold_table(
            before,
            after,
            other,
        ) by {
            lemma_cold_fields(before, after, other);
        }
    }
}

/// A delete marks the hot row. Where a segment holds the row, its deletion
/// waits for the transaction's marker, and replay cannot end before it; the
/// deletion is seen by nobody else until then.
pub proof fn law_delete_waits_where_a_segment_holds_the_row(
    before: ReplayState,
    seen: ReplayCounters,
    entry: WalEntry,
    name: Seq<char>,
    after: ReplayState,
    counted: ReplayCounters,
    r: Result<ReplayAction, Error>,
)
    requires
        entry.operation == WalOperation::Delete,
        entry_replayed(before, seen, entry, Some(name), after, counted, r),
    ensures
        r == Ok::<ReplayAction, Error>(ReplayAction::MarkDeleted),
        after.cold@.dom().contains(name),
        forall|row_id: i64|
            #![trigger holds_cold(after, name, row_id)]
            holds_cold(after, name, row_id) == holds_cold(before, name, row_id),
        forall|row_id: i64|
            #![trigger is_tombstoned(after, name, row_id)]
            is_tombstoned(after, name, row_id) == is_tombstoned(before, name, row_id),
        forall|txn_id: i64, row_id: i64|
            #![trigger is_waiting(after, name, txn_id, row_id)]
            is_waiting(after, name, txn_id, row_id) <==> {
                ||| is_waiting(before, name, txn_id, row_id)
                ||| txn_id == entry.txn_id && row_id == entry.row_id && holds_cold(
                    before,
                    name,
                    row_id,
                )
            },
        holds_cold(before, name, entry.row_id) ==> after.touched@.dom().contains(entry.txn_id)
            && after.touched@[entry.txn_id]@.contains(name),
        !holds_cold(before, name, entry.row_id) ==> after@.touched == before@.touched,
        forall|other: Seq<char>| other != name ==> #[trigger] same_cold_table(before, after, other),
{
    assert(after@.cold.dom().contains(name));
    assert(after@.cold[name] == after.cold@[name]@);
    if before.cold@.dom().contains(name) {
        assert(before@.cold[name] == before.cold@[name]@);
    }
    let old_pending = if before.cold@.dom().contains(name) {
        before.cold@[name].pending@
    } else {
        Seq::empty()
    };
    let pending = after.cold@[name].pending@;
    if holds_cold(before, name, entry.row_id) {
        assert(pending == old_pending.push((entry.txn_id, entry.row_id)));
        assert(pending[old_pending.len() as int] == (entry.txn_id, entry.row_id));
        let names = after@.touched[entry.txn_id];
        assert(after@.touched.dom().contains(entry.txn_id));
        assert(after.touched@[entry.txn_id]@ == names);
        let held = if before@.touched.dom().contains(entry.txn_id) {
            before@.touched[entry.txn_id]
        } else {
            Seq::empty()
        };
        if !held.contains(name) {
            assert(names[held.len() as int] == name);
        }
    } else {
        assert(pending =~= old_pending);
    }
    assert forall|txn_id: i64, row_id: i64|
        #![trigger is_waiting(after, name, txn_id, row_id)]
        is_waiting(after, name, txn_id, row_id) <==> {
            ||| is_waiting(before, name, txn_id, row_id)
            ||| txn_id == entry.txn_id && row_id == entry.row_id && holds_cold(
                before,
                name,
                row_id,
            )
        } by {
        if is_waiting(before, name, txn_id, row_id) {
            let k = choose|k: int|
                0 <= k < before.cold@[name].pending@.len()
                    && #[trigger] before.cold@[name].pending@[k] == (txn_id, row_id);
            assert(pending[k] == (txn_id, row_id));
        }
        if is_waiting(after, name, txn_id, row_id) {
            let k = choose|k: int|
                0 <= k < after.cold@[name].pending@.len()
                    && #[trigger] after.cold@[name].pending@[k] == (txn_id, row_id);
            if k < old_pending.len() {
                assert(before.cold@[name].pending@[k] == (txn_id, row_id));
            }
        }
    }
    assert forall|other: Seq<char>| other != name implies #[trigger] same_cold_table(
        before,
        after,
        other,
    ) by {
        lemma_cold_fields(before, after, other);
    }
}

proof fn lemma_settled_rows(table: ColdTableView, txn_id: i64, commit_seq: u64, n: int)
    requires
        0 <= n <= table.pending.len(),
    ensures
        ({
            let after = committed_tombstones(table, txn_id, commit_seq, n);
            forall|row_id: i64| #![trigger after.dom().contains(row_id)]
                {
                    let settled = exists|k: int|
                        0 <= k < n && #[trigger] table.pending[k] == (txn_id, row_id);
                    &&& after.dom().contains(row_id) <==> settled || table.tombstones.dom().contains(
                        row_id,
                    )
                    &&& settled ==> after[row_id] == commit_seq
                    &&& !settled && table.tombstones.dom().contains(row_id) ==> after[row_id]
                        == table.tombstones[row_id]
                }
        }),
    decreases n,
{
    if n > 0 {
        lemma_settled_rows(table, txn_id, commit_seq, n - 1);
        let before = committed_tombstones(table, txn_id, commit_seq, n - 1);
        let after = committed_tombstones(table, txn_id, commit_seq, n);
        assert forall|row_id: i64| #![trigger after.dom().contains(row_id)]
            {
                let settled = exists|k: int|
                    0 <= k < n && #[trigger] table.pending[k] == (txn_id, row_id);
                &&& after.dom().contains(row_id) <==> settled || table.tombstones.dom().contains(
                    row_id,
                )
                &&& settled ==> after[row_id] == commit_seq
                &&& !settled && table.tombstones.dom().contains(row_id) ==> after[row_id]
                    == table.tombstones[row_id]
            } by {
            let earlier = exists|k: int|
                0 <= k < n - 1 && #[trigger] table.pending[k] == (txn_id, row_id);
            let settled = exists|k: int|
                0 <= k < n && #[trigger] table.pending[k] == (txn_id, row_id);
            assert(before.dom().contains(row_id) <==> earlier || table.tombstones.dom().contains(
                row_id,
            ));
            if settled && !earlier {
                let k = choose|k: int|
                    0 <= k < n && #[trigger] table.pending[k] == (txn_id, row_id);
                assert(k == n - 1);
            }
            if table.pending[n - 1] == (txn_id, row_id) {
                assert(settled);
            }
        }
    }
}

proof fn lemma_other_pending(pending: Seq<(i64, i64)>, txn_id: i64, n: int)
    requires
        0 <= n <= pending.len(),
    ensures
        forall|p: (i64, i64)| #[trigger] others_pending(pending, txn_id, n).contains(p) <==> p.0
            != txn_id && exists|k: int| 0 <= k < n && #[trigger] pending[k] == p,
    decreases n,
{
    if n > 0 {
        lemma_other_pending(pending, txn_id, n - 1);
        let before = others_pending(pending, txn_id, n - 1);
        let after = others_pending(pending, txn_id, n);
        assert forall|p: (i64, i64)| #[trigger] after.contains(p) <==> p.0 != txn_id && exists|k:
            int|
            0 <= k < n && #[trigger] pending[k] == p by {
            if after.contains(p) {
                let i = choose|i: int| 0 <= i < after.len() && after[i] == p;
                if i < before.len() {
                    assert(before[i] == p);
                    assert(before.contains(p));
                } else {
                    assert(pending[n - 1] == p);
                }
            }
            if p.0 != txn_id && exists|k: int| 0 <= k < n && #[trigger] pending[k] == p {
                let k = choose|k: int| 0 <= k < n && #[trigger] pending[k] == p;
                if k < n - 1 {
                    assert(before.contains(p));
                    let i = choose|i: int| 0 <= i < before.len() && before[i] == p;
                    assert(after[i] == p);
                } else {
                    assert(after[before.len() as int] == p);
                }
            }
        }
    } else {
        assert(others_pending(pending, txn_id, n).len() == 0);
    }
}

/// The table holds what it held before, with the deletions of a transaction
/// settled at a sequence or taken back.
pub open spec fn is_settled(
    before: ColdTableView,
    after: ColdTableView,
    txn_id: i64,
    commit_seq: Option<u64>,
) -> bool {
    &&& after.volume_rows == before.volume_rows
    &&& forall|p: (i64, i64)| #[trigger]
        after.pending.contains(p) <==> before.pending.contains(p) && p.0 != txn_id
    &&& forall|row_id: i64|
        #![trigger after.tombstones.dom().contains(row_id)]
        {
            let settled = commit_seq is Some && before.pending.contains((txn_id, row_id));
            &&& after.tombstones.dom().contains(row_id) <==> settled
                || before.tombstones.dom().contains(row_id)
            &&& settled ==> after.tombstones[row_id] == commit_seq->Some_0
            &&& !settled && before.tombstones.dom().contains(row_id) ==> after.tombstones[row_id]
                == before.tombstones[row_id]
        }
}

proof fn lemma_table_settled(table: ColdTableView, txn_id: i64, commit_seq: u64)
    ensures
        is_settled(table, committed_table(table, txn_id, commit_seq), txn_id, Some(commit_seq)),
        is_settled(table, rolled_back_table(table, txn_id), txn_id, None),
{
    let n = table.pending.len() as int;
    lemma_settled_rows(table, txn_id, commit_seq, n);
    lemma_other_pending(table.pending, txn_id, n);
    assert forall|p: (i64, i64)| #![trigger table.pending.contains(p)]
        table.pending.contains(p) <==> exists|k: int|
            0 <= k < n && #[trigger] table.pending[k] == p by {
    }
    let after = committed_table(table, txn_id, commit_seq);
    assert forall|row_id: i64| #![trigger after.tombstones.dom().contains(row_id)]
        {
            let settled = table.pending.contains((txn_id, row_id));
            &&& after.tombstones.dom().contains(row_id) <==> settled
                || table.tombstones.dom().contains(row_id)
            &&& settled ==> after.tombstones[row_id] == commit_seq
            &&& !settled && table.tombstones.dom().contains(row_id) ==> after.tombstones[row_id]
                == table.tombstones[row_id]
        } by {
        assert(table.pending.contains((txn_id, row_id)) <==> exists|k: int|
            0 <= k < n && #[trigger] table.pending[k] == (txn_id, row_id));
        assert(committed_tombstones(table, txn_id, commit_seq, n).dom().contains(row_id)
            <==> after.tombstones.dom().contains(row_id));
    }
}

proof fn lemma_settled_twice(
    a: ColdTableView,
    b: ColdTableView,
    c: ColdTableView,
    txn_id: i64,
    commit_seq: Option<u64>,
)
    requires
        is_settled(a, b, txn_id, commit_seq),
        is_settled(b, c, txn_id, commit_seq),
    ensures
        is_settled(a, c, txn_id, commit_seq),
{
    assert forall|p: (i64, i64)| #[trigger]
        c.pending.contains(p) <==> a.pending.contains(p) && p.0 != txn_id by {
        assert(b.pending.contains(p) <==> a.pending.contains(p) && p.0 != txn_id);
    }
    assert forall|row_id: i64| #![trigger c.tombstones.dom().contains(row_id)]
        {
            let settled = commit_seq is Some && a.pending.contains((txn_id, row_id));
            &&& c.tombstones.dom().contains(row_id) <==> settled || a.tombstones.dom().contains(
                row_id,
            )
            &&& settled ==> c.tombstones[row_id] == commit_seq->Some_0
            &&& !settled && a.tombstones.dom().contains(row_id) ==> c.tombstones[row_id]
                == a.tombstones[row_id]
        } by {
        assert(b.tombstones.dom().contains(row_id) || !b.tombstones.dom().contains(row_id));
        assert(!b.pending.contains((txn_id, row_id)));
    }
}

/// Tables noted for a transaction are settled, the others stay.
pub open spec fn all_settled(
    before: ColdTables,
    after: ColdTables,
    names: Seq<Seq<char>>,
    txn_id: i64,
    commit_seq: Option<u64>,
    i: int,
) -> bool {
    &&& after.dom() == before.dom()
    &&& forall|name: Seq<char>| #[trigger]
        before.dom().contains(name) ==> {
            ||| is_settled(before[name], after[name], txn_id, commit_seq)
            ||| after[name] == before[name] && !names.skip(i).contains(name)
        }
    &&& forall|name: Seq<char>| #[trigger]
        before.dom().contains(name) && !names.skip(i).contains(name) ==> after[name]
            == before[name]
}

proof fn lemma_commit_settles_all(
    cold: ColdTables,
    names: Seq<Seq<char>>,
    txn_id: i64,
    commit_seq: u64,
    i: int,
)
    requires
        0 <= i <= names.len(),
        forall|k: int| 0 <= k < names.len() ==> cold.dom().contains(#[trigger] names[k]),
    ensures
        with_committed(cold, names, txn_id, commit_seq, i) is Ok,
        all_settled(
            cold,
            with_committed(cold, names, txn_id, commit_seq, i)->Ok_0,
            names,
            txn_id,
            Some(commit_seq),
            i,
        ),
    decreases names.len() - i,
{
    if i < names.len() {
        let name = names[i];
        let next = cold.insert(name, committed_table(cold[name], txn_id, commit_seq));
        lemma_table_settled(cold[name], txn_id, commit_seq);
        lemma_commit_settles_all(next, names, txn_id, commit_seq, i + 1);
        let after = with_committed(next, names, txn_id, commit_seq, i + 1)->Ok_0;
        assert(next.dom() =~= cold.dom());
        lemma_step_settles(cold, next, after, names, txn_id, Some(commit_seq), i);
    }
}

proof fn lemma_step_settles(
    cold: ColdTables,
    next: ColdTables,
    after: ColdTables,
    names: Seq<Seq<char>>,
    txn_id: i64,
    commit_seq: Option<u64>,
    i: int,
)
    requires
        0 <= i < names.len(),
        next.dom() == cold.dom(),
        cold.dom().contains(names[i]) ==> is_settled(
            cold[names[i]],
            next[names[i]],
            txn_id,
            commit_seq,
        ),
        forall|name: Seq<char>| #[trigger]
            cold.dom().contains(name) && name != names[i] ==> next[name] == cold[name],
        all_settled(next, after, names, txn_id, commit_seq, i + 1),
    ensures
        all_settled(cold, after, names, txn_id, commit_seq, i),
{
    assert(names.skip(i)[0] == names[i]);
    assert forall|n: Seq<char>| names.skip(i + 1).contains(n) implies #[trigger] names.skip(
        i,
    ).contains(n) by {
        let rest = names.skip(i + 1);
        let k = choose|k: int| 0 <= k < rest.len() && rest[k] == n;
        assert(names.skip(i)[k + 1] == n);
    }
    assert forall|n: Seq<char>| #[trigger] cold.dom().contains(n) implies {
        ||| is_settled(cold[n], after[n], txn_id, commit_seq)
        ||| after[n] == cold[n] && !names.skip(i).contains(n)
    } by {
        assert(next.dom().contains(n));
        if n == names[i] {
            if !is_settled(next[n], after[n], txn_id, commit_seq) {
                assert(after[n] == next[n]);
            } else {
                lemma_settled_twice(cold[n], next[n], after[n], txn_id, commit_seq);
            }
        } else if names.skip(i).contains(n) {
            let rest = names.skip(i);
            let k = choose|k: int| 0 <= k < rest.len() && rest[k] == n;
            assert(names.skip(i + 1)[k - 1] == n);
        }
    }
    assert forall|n: Seq<char>| #[trigger] cold.dom().contains(n) && !names.skip(i).contains(
        n,
    ) implies after[n] == cold[n] by {
        assert(next.dom().contains(n));
        assert(n != names[i]);
    }
}

proof fn lemma_rollback_settles_all(
    cold: ColdTables,
    names: Seq<Seq<char>>,
    txn_id: i64,
    i: int,
)
    requires
        0 <= i <= names.len(),
    ensures
        all_settled(cold, with_rolled_back(cold, names, txn_id, i), names, txn_id, None, i),
    decreases names.len() - i,
{
    if i < names.len() {
        let name = names[i];
        let next = if cold.dom().contains(name) {
            cold.insert(name, rolled_back_table(cold[name], txn_id))
        } else {
            cold
        };
        if cold.dom().contains(name) {
            lemma_table_settled(cold[name], txn_id, 0);
        }
        lemma_rollback_settles_all(next, names, txn_id, i + 1);
        assert(next.dom() =~= cold.dom());
        lemma_step_settles(
            cold,
            next,
            with_rolled_back(next, names, txn_id, i + 1),
            names,
            txn_id,
            None,
            i,
        );
    }
}

/// What a marker leaves of every table: its cold rows stay, the deletions of
/// the marked transaction wait no longer, those of others still do. A commit
/// makes its deletions visible at its own position; nothing else is deleted
/// or brought back.
pub open spec fn marker_settles(
    before: ReplayState,
    after: ReplayState,
    txn_id: i64,
    commit_seq: Option<u64>,
    name: Seq<char>,
) -> bool {
    &&& before.cold@.dom().contains(name) == after.cold@.dom().contains(name)
    &&& forall|row_id: i64|
        #![trigger holds_cold(after, name, row_id)]
        holds_cold(after, name, row_id) == holds_cold(before, name, row_id)
    &&& forall|txn: i64, row_id: i64|
        #![trigger is_waiting(after, name, txn, row_id)]
        is_waiting(after, name, txn, row_id) <==> txn != txn_id && is_waiting(
            before,
            name,
            txn,
            row_id,
        )
    &&& forall|row_id: i64|
        #![trigger is_tombstoned(after, name, row_id)]
        {
            let settled = commit_seq is Some && is_waiting(before, name, txn_id, row_id);
            &&& is_tombstoned(after, name, row_id) <==> settled || is_tombstoned(
                before,
                name,
                row_id,
            )
            &&& settled ==> after.cold@[name].tombstones@[row_id] == commit_seq->Some_0
            &&& !settled && is_tombstoned(before, name, row_id)
                ==> after.cold@[name].tombstones@[row_id]
                == before.cold@[name].tombstones@[row_id]
        }
}

proof fn lemma_marker_settles(
    before: ReplayState,
    after: ReplayState,
    names: Seq<Seq<char>>,
    txn_id: i64,
    commit_seq: Option<u64>,
    name: Seq<char>,
)
    requires
        waiting_is_noted(before),
        before.touched@.dom().contains(txn_id) ==> names == before.touched@[txn_id]@,
        !before.touched@.dom().contains(txn_id) ==> names.len() == 0,
        all_settled(before@.cold, after@.cold, names, txn_id, commit_seq, 0),
    ensures
        marker_settles(before, after, txn_id, commit_seq, name),
{
    assert(names.skip(0) =~= names);
    assert(before.cold@.dom() =~= before@.cold.dom());
    assert(after.cold@.dom() =~= after@.cold.dom());
    if before.cold@.dom().contains(name) {
        let b = before.cold@[name]@;
        let a = after.cold@[name]@;
        assert(before@.cold.dom().contains(name));
        assert(b == before@.cold[name]);
        assert(a == after@.cold[name]);
        assert forall|txn: i64, row_id: i64|
            #![trigger is_waiting(before, name, txn, row_id)]
            is_waiting(before, name, txn, row_id) <==> b.pending.contains((txn, row_id)) by {
        }
        assert forall|txn: i64, row_id: i64|
            #![trigger is_waiting(after, name, txn, row_id)]
            is_waiting(after, name, txn, row_id) <==> a.pending.contains((txn, row_id)) by {
        }
        if !is_settled(b, a, txn_id, commit_seq) {
            assert(a == b && !names.contains(name));
            assert forall|row_id: i64| !is_waiting(before, name, txn_id, row_id) by {
                if is_waiting(before, name, txn_id, row_id) {
                    let k = choose|k: int|
                        0 <= k < before.cold@[name].pending@.len()
                            && #[trigger] before.cold@[name].pending@[k] == (txn_id, row_id);
                    assert(before.cold@[name].pending@[k].0 == txn_id);
                }
            }
        } else {
            assert forall|row_id: i64|
                #![trigger is_tombstoned(after, name, row_id)]
                {
                    let settled = commit_seq is Some && is_waiting(before, name, txn_id, row_id);
                    &&& is_tombstoned(after, name, row_id) <==> settled || is_tombstoned(
                        before,
                        name,
                        row_id,
                    )
                    &&& settled ==> after.cold@[name].tombstones@[row_id] == commit_seq->Some_0
                    &&& !settled && is_tombstoned(before, name, row_id)
                        ==> after.cold@[name].tombstones@[row_id]
                        == before.cold@[name].tombstones@[row_id]
                } by {
                assert(is_waiting(before, name, txn_id, row_id) <==> b.pending.contains(
                    (txn_id, row_id),
                ));
                assert(a.tombstones.dom().contains(row_id) <==> is_tombstoned(after, name, row_id));
            }
            assert forall|txn: i64, row_id: i64|
                #![trigger is_waiting(after, name, txn, row_id)]
                is_waiting(after, name, txn, row_id) <==> txn != txn_id && is_waiting(
                    before,
                    name,
                    txn,
                    row_id,
                ) by {
                assert(a.pending.contains((txn, row_id)) <==> b.pending.contains((txn, row_id))
                    && txn != txn_id);
                assert(is_waiting(before, name, txn, row_id) <==> b.pending.contains((txn, row_id)));
            }
        }
    }
}

/// A commit marker makes exactly the deletions of its own transaction visible,
/// in every table, at the marker's position. A marker whose position is no
/// sequence is refused.
pub proof fn law_commit_settles_its_own_deletions(
    before: ReplayState,
    seen: ReplayCounters,
    commit: WalEntry,
    table: Option<Seq<char>>,
    after: ReplayState,
    counted: ReplayCounters,
    r: Result<ReplayAction, Error>,
    name: Seq<char>,
)
    requires
        commit.operation == WalOperation::Commit,
        waiting_is_noted(before),
        noted_tables_are_there(before),
        entry_replayed(before, seen, commit, table, after, counted, r),
    ensures
        r is Ok <==> commit.lsn <= i64::MAX,
        r matches Ok(action) ==> {
            &&& action == ReplayAction::Commit { sequence: commit.lsn as i64 }
            &&& marker_settles(before, after, commit.txn_id, Some(commit.lsn), name)
            &&& after@.touched == before@.touched.remove(commit.txn_id)
        },
{
    let names = if before@.touched.dom().contains(commit.txn_id) {
        before@.touched[commit.txn_id]
    } else {
        Seq::empty()
    };
    assert forall|k: int| 0 <= k < names.len() implies before@.cold.dom().contains(
        #[trigger] names[k],
    ) by {
        assert(before.cold@.dom().contains(before.touched@[commit.txn_id]@[k]));
    }
    lemma_commit_settles_all(before@.cold, names, commit.txn_id, commit.lsn, 0);
    if r is Ok {
        lemma_marker_settles(before, after, names, commit.txn_id, Some(commit.lsn), name);
    }
}

/// A rollback marker takes the deletions of its own transaction back, in every
/// table, and deletes nothing.
pub proof fn law_rollback_takes_its_own_deletions_back(
    before: ReplayState,
    seen: ReplayCounters,
    rollback: WalEntry,
    table: Option<Seq<char>>,
    after: ReplayState,
    counted: ReplayCounters,
    r: Result<ReplayAction, Error>,
    name: Seq<char>,
)
    requires
        rollback.operation == WalOperation::Rollback,
        waiting_is_noted(before),
        entry_replayed(before, seen, rollback, table, after, counted, r),
    ensures
        r == Ok::<ReplayAction, Error>(ReplayAction::Abort),
        marker_settles(before, after, rollback.txn_id, None, name),
        after@.touched == before@.touched.remove(rollback.txn_id),
{
    let names = if before@.touched.dom().contains(rollback.txn_id) {
        before@.touched[rollback.txn_id]
    } else {
        Seq::empty()
    };
    lemma_rollback_settles_all(before@.cold, names, rollback.txn_id, 0);
    lemma_marker_settles(before, after, names, rollback.txn_id, None, name);
}

/// Records of the catalog, and row records without a live table, change
/// nothing; every record is counted once, as applied or as passed over.
pub proof fn law_unowned_records_are_passed_over(
    before: ReplayState,
    seen: ReplayCounters,
    entry: WalEntry,
    table: Option<Seq<char>>,
    after: ReplayState,
    counted: ReplayCounters,
    r: Result<ReplayAction, Error>,
)
    requires
        entry_replayed(before, seen, entry, table, after, counted, r),
        seen.applied < u64::MAX,
        seen.irrelevant < u64::MAX,
    ensures
        entry.operation == WalOperation::CatalogMutation ==> {
            &&& r == Ok::<ReplayAction, Error>(ReplayAction::Ignore)
            &&& after == before
        },
        table is None && entry.operation != WalOperation::Commit && entry.operation
            != WalOperation::Rollback ==> {
            &&& r == Ok::<ReplayAction, Error>(ReplayAction::Ignore)
            &&& after == before
        },
        r is Ok ==> counted.applied + counted.irrelevant == seen.applied + seen.irrelevant + 1,
        r == Ok::<ReplayAction, Error>(ReplayAction::Ignore) ==> counted.applied == seen.applied,
        r is Ok && r->Ok_0 != ReplayAction::Ignore ==> counted.irrelevant == seen.irrelevant,
        r is Err ==> counted == seen,
{
}

/// Replay never loses track of a deletion that waits: what it knows of
/// transactions stays sound from record to record.
pub proof fn law_waiting_deletions_stay_noted(
    before: ReplayState,
    seen: ReplayCounters,
    entry: WalEntry,
    table: Option<Seq<char>>,
    after: ReplayState,
    counted: ReplayCounters,
    r: Result<ReplayAction, Error>,
)
    requires
        waiting_is_noted(before),
        noted_tables_are_there(before),
        entry_replayed(before, seen, entry, table, after, counted, r),
        r is Ok,
    ensures
        waiting_is_noted(after),
        noted_tables_are_there(after),
{
    assert(before.cold@.dom() =~= before@.cold.dom());
    assert(after.cold@.dom() =~= after@.cold.dom());
    assert forall|txn: i64| #![trigger after.touched@.dom().contains(txn)]
        after@.touched.dom().contains(txn) == after.touched@.dom().contains(txn) by {
    }
    match (entry.operation, table) {
        (WalOperation::Commit, _) => {
            assert forall|name: Seq<char>, k: int|
                after.cold@.dom().contains(name) && 0 <= k
                    < after.cold@[name].pending@.len() implies {
                let txn_id = (#[trigger] after.cold@[name].pending@[k]).0;
                after.touched@.dom().contains(txn_id) && after.touched@[txn_id]@.contains(name)
            } by {
                let p = after.cold@[name].pending@[k];
                law_commit_settles_its_own_deletions(
                    before,
                    seen,
                    entry,
                    table,
                    after,
                    counted,
                    r,
                    name,
                );
                assert(is_waiting(after, name, p.0, p.1));
                assert(is_waiting(before, name, p.0, p.1));
                let m = choose|m: int|
                    0 <= m < before.cold@[name].pending@.len()
                        && #[trigger] before.cold@[name].pending@[m] == p;
                assert(before.cold@[name].pending@[m].0 == p.0);
                assert(after@.touched[p.0] == before@.touched[p.0]);
            }
            assert forall|txn_id: i64, i: int|
                after.touched@.dom().contains(txn_id) && 0 <= i
                    < after.touched@[txn_id]@.len() implies after.cold@.dom().contains(
                #[trigger] after.touched@[txn_id]@[i],
            ) by {
                let n = after.touched@[txn_id]@[i];
                assert(after@.touched[txn_id] == before@.touched[txn_id]);
                assert(before.cold@.dom().contains(before.touched@[txn_id]@[i]));
                law_commit_settles_its_own_deletions(
                    before,
                    seen,
                    entry,
                    table,
                    after,
                    counted,
                    r,
                    n,
                );
            }
        },
        (WalOperation::Rollback, _) => {
            assert forall|name: Seq<char>, k: int|
                after.cold@.dom().contains(name) && 0 <= k
                    < after.cold@[name].pending@.len() implies {
                let txn_id = (#[trigger] after.cold@[name].pending@[k]).0;
                after.touched@.dom().contains(txn_id) && after.touched@[txn_id]@.contains(name)
            } by {
                let p = after.cold@[name].pending@[k];
                law_rollback_takes_its_own_deletions_back(
                    before,
                    seen,
                    entry,
                    table,
                    after,
                    counted,
                    r,
                    name,
                );
                assert(is_waiting(after, name, p.0, p.1));
                assert(is_waiting(before, name, p.0, p.1));
                let m = choose|m: int|
                    0 <= m < before.cold@[name].pending@.len()
                        && #[trigger] before.cold@[name].pending@[m] == p;
                assert(before.cold@[name].pending@[m].0 == p.0);
                assert(after@.touched[p.0] == before@.touched[p.0]);
            }
            assert forall|txn_id: i64, i: int|
                after.touched@.dom().contains(txn_id) && 0 <= i
                    < after.touched@[txn_id]@.len() implies after.cold@.dom().contains(
                #[trigger] after.touched@[txn_id]@[i],
            ) by {
                let n = after.touched@[txn_id]@[i];
                assert(after@.touched[txn_id] == before@.touched[txn_id]);
                assert(before.cold@.dom().contains(before.touched@[txn_id]@[i]));
                law_rollback_takes_its_own_deletions_back(
                    before,
                    seen,
                    entry,
                    table,
                    after,
                    counted,
                    r,
                    n,
                );
            }
        },
        (WalOperation::Delete, Some(name)) => {
            law_delete_waits_where_a_segment_holds_the_row(
                before,
                seen,
                entry,
                name,
                after,
                counted,
                r,
            );
            assert forall|n: Seq<char>, k: int|
                after.cold@.dom().contains(n) && 0 <= k < after.cold@[n].pending@.len() implies {
                let txn_id = (#[trigger] after.cold@[n].pending@[k]).0;
                after.touched@.dom().contains(txn_id) && after.touched@[txn_id]@.contains(n)
            } by {
                let p = after.cold@[n].pending@[k];
                if n != name {
                    assert(same_cold_table(before, after, n));
                    assert(before.cold@[n].pending@[k] == p);
                    assert(before.touched@[p.0]@.contains(n));
                } else {
                    assert(is_waiting(after, name, p.0, p.1));
                    if is_waiting(before, name, p.0, p.1) {
                        let m = choose|m: int|
                            0 <= m < before.cold@[name].pending@.len()
                                && #[trigger] before.cold@[name].pending@[m] == p;
                        assert(before.cold@[name].pending@[m].0 == p.0);
                        assert(before.touched@[p.0]@.contains(n));
                    }
                }
                if before.touched@.dom().contains(p.0) && before.touched@[p.0]@.contains(n) {
                    let held = before@.touched[p.0];
                    assert(held == before.touched@[p.0]@);
                    assert(after@.touched[p.0] == after.touched@[p.0]@);
                    let i = choose|i: int| 0 <= i < held.len() && held[i] == n;
                    assert(after@.touched[p.0][i] == n);
                }
            }
            assert forall|txn_id: i64, i: int|
                after.touched@.dom().contains(txn_id) && 0 <= i
                    < after.touched@[txn_id]@.len() implies after.cold@.dom().contains(
                #[trigger] after.touched@[txn_id]@[i],
            ) by {
                let n = after.touched@[txn_id]@[i];
                assert(after@.touched[txn_id] == after.touched@[txn_id]@);
                if n != name {
                    assert(before@.touched.dom().contains(txn_id));
                    assert(before.touched@[txn_id]@ == before@.touched[txn_id]);
                    assert(before.touched@[txn_id]@[i] == n);
                    assert(same_cold_table(before, after, n));
                }
            }
        },
        _ => {
            assert forall|n: Seq<char>, k: int|
                after.cold@.dom().contains(n) && 0 <= k < after.cold@[n].pending@.len() implies {
                let txn_id = (#[trigger] after.cold@[n].pending@[k]).0;
                after.touched@.dom().contains(txn_id) && after.touched@[txn_id]@.contains(n)
            } by {
                assert(after.cold@[n]@ == after@.cold[n]);
                assert(before.cold@.dom().contains(n));
                assert(before.cold@[n]@ == before@.cold[n]);
                assert(before.cold@[n].pending@[k] == after.cold@[n].pending@[k]);
                let txn_id = after.cold@[n].pending@[k].0;
                assert(after@.touched[txn_id] == before@.touched[txn_id]);
            }
            assert forall|txn_id: i64, i: int|
                after.touched@.dom().contains(txn_id) && 0 <= i
                    < after.touched@[txn_id]@.len() implies after.cold@.dom().contains(
                #[trigger] after.touched@[txn_id]@[i],
            ) by {
                assert(after@.touched[txn_id] == before@.touched[txn_id]);
                assert(before.cold@.dom().contains(before.touched@[txn_id]@[i]));
            }
        },
    }
}

proof fn lemma_wal_owner(tables: Seq<RuntimeTable>, id: u128, n: int)
    requires
        0 <= n <= tables.len(),
    ensures
        wal_owner(tables, id, n) matches Some(name) ==> exists|i: int|
            0 <= i < n && (#[trigger] tables[i]).catalog_id == Ok::<u128, String>(id)
                && tables[i].name_lower@ == name,
        wal_owner(tables, id, n) is None ==> forall|i: int|
            0 <= i < n ==> (#[trigger] tables[i]).catalog_id != Ok::<u128, String>(id),
    decreases n,
{
    if n > 0 {
        lemma_wal_owner(tables, id, n - 1);
    }
}

/// A record is replayed on a table whose identity it names, and on none where
/// no table has that identity.
pub proof fn law_records_find_their_table(tables: Seq<RuntimeTable>, table_id: Option<u128>)
    ensures
        match record_owner(tables, table_id) {
            Some(name) => exists|i: int|
                0 <= i < tables.len() && table_id is Some && (#[trigger] tables[i]).catalog_id
                    == Ok::<u128, String>(table_id->Some_0) && tables[i].name_lower@ == name,
            None => forall|i: int|
                0 <= i < tables.len() && table_id is Some ==> (#[trigger] tables[i]).catalog_id
                    != Ok::<u128, String>(table_id->Some_0),
        },
{
    if let Some(id) = table_id {
        lemma_wal_owner(tables, id, tables.len() as int);
    }
}

} // verus!
