//! What a transaction sees of tables.
use super::commit::commit_refusal;
use super::commit::refreshed;
use super::commit::staging_check;
use super::commit::CommitTable;
use super::commit::SealState;
use super::tables::cold_reads;
use super::tables::create_refusal;
use super::tables::disabled_indexes;
use super::tables::keeps_cold_owner;
use super::tables::store_source;
use super::tables::ColdReads;
use super::tables::StoreSource;
use super::tables::TransactionMode;
use crate::ddl::request::CatalogState;
use crate::ddl::request::PendingIndexDrop;
use crate::error::earlier;
use crate::error::first_refusal;
use crate::error::lemma_no_refusal;
use crate::error::refusal;
use crate::error::Error;
use crate::schema::judged;
use crate::schema::Schema;
use crate::schema::SchemaVerdicts;
use crate::text::lowercase_text;
use crate::text::same_ignoring_ascii_case;
use vstd::prelude::*;

verus! {

/// A table held back is seen by its creator alone, and by its creator before
/// any published one of that name; everybody else sees what is published.
pub proof fn law_reserved_table_is_its_creators(
    state: CatalogState,
    txn_id: i64,
    name: Seq<char>,
)
    ensures
        store_source(state, txn_id, name) == Some(StoreSource::Unpublished)
            <==> state.pending@.dom().contains(name) && state.pending@[name].owner_txn_id
            == txn_id,
        !(state.pending@.dom().contains(name) && state.pending@[name].owner_txn_id == txn_id) ==> (
        store_source(state, txn_id, name) == Some(StoreSource::Published)
            <==> state.stores@.dom().contains(name)),
{
}

/// A table can be created exactly where its schema bears its name and is sound,
/// its key can be indexed, and neither a table, one held back nor a view has
/// the name.
pub proof fn law_table_needs_a_free_name(
    state: CatalogState,
    name: Seq<char>,
    schema: Schema,
    identity: Result<(), Error>,
    verdicts: SchemaVerdicts,
    key_index: Result<(), Error>,
)
    ensures
        create_refusal(state, name, schema, identity, verdicts, key_index) is None <==> {
            &&& schema.table_name_lower@ == lowercase_text(name)
            &&& identity is Ok
            &&& judged(schema@, verdicts) is None
            &&& key_index is Ok
            &&& !state.pending@.dom().contains(lowercase_text(name))
            &&& !state.schemas@.dom().contains(lowercase_text(name))
            &&& !state.views@.dom().contains(lowercase_text(name))
        },
{
}

/// A snapshot never reads cold rows that were committed after it began; any
/// other transaction reads all of them; a table without an owner has none.
pub proof fn law_snapshot_reads_as_of_its_begin(
    source: StoreSource,
    has_manager: bool,
    log_enabled: bool,
    mode: TransactionMode,
)
    ensures
        ({
            let reads = cold_reads(source, has_manager, log_enabled, mode);
            let owned = has_manager || (source == StoreSource::Published && log_enabled);
            &&& !owned <==> reads == ColdReads::HotOnly
            &&& owned && mode.is_snapshot ==> reads == ColdReads::AsOf(mode.begin_sequence)
            &&& owned && !mode.is_snapshot ==> reads == ColdReads::Latest
            &&& keeps_cold_owner(source, has_manager, log_enabled) == owned
        }),
{
}

/// The indexes that stay disabled on a table are those that its remaining drops
/// name, and no others.
pub proof fn law_dropped_indexes_stay_disabled(
    drops: Seq<PendingIndexDrop>,
    name: Seq<char>,
    n: int,
    index: Seq<char>,
)
    requires
        0 <= n <= drops.len(),
    ensures
        disabled_indexes(drops, name, n).contains(index) <==> exists|i: int|
            0 <= i < n && same_ignoring_ascii_case((#[trigger] drops[i]).table_name@, name)
                && drops[i].index_name@ == index,
    decreases n,
{
    if n > 0 {
        law_dropped_indexes_stay_disabled(drops, name, n - 1, index);
        let short = disabled_indexes(drops, name, n - 1);
        let last = drops[n - 1].index_name@;
        let long = short.push(last);
        if short.contains(index) {
            let k = choose|k: int| 0 <= k < short.len() && short[k] == index;
            assert(long[k] == index);
            let i = choose|i: int|
                0 <= i < n - 1 && same_ignoring_ascii_case((#[trigger] drops[i]).table_name@, name)
                    && drops[i].index_name@ == index;
            assert(drops[i].index_name@ == index);
        }
        assert(long[short.len() as int] == last);
        if long.contains(index) {
            let k = choose|k: int| 0 <= k < long.len() && long[k] == index;
            if k < short.len() {
                assert(short[k] == index);
            } else {
                assert(drops[n - 1].index_name@ == index);
            }
        }
    }
}

/// A commit is accepted only where nothing that it staged was refused, every
/// table that it changed passes its store's check, each whose cold segments
/// moved since it was written passes the check against them, and the
/// constraints hold. The tables that were checked again are those reported.
pub proof fn law_accepted_commit_passed_every_check(
    removals: Seq<Result<(), Error>>,
    tables: Seq<CommitTable>,
    constraints: Result<(), Error>,
    i: int,
    t: usize,
)
    requires
        tables.len() <= usize::MAX,
        earlier(
            first_refusal(0, removals.len() as int, staging_check(removals)),
            earlier(
                first_refusal(0, tables.len() as int, |i: int| commit_refusal(tables[i])),
                refusal(constraints),
            ),
        ) is None,
    ensures
        constraints is Ok,
        0 <= i < removals.len() ==> removals[i] is Ok,
        0 <= i < tables.len() && tables[i].has_local_changes && tables[i].has_store ==> {
            &&& tables[i].store_check is Ok
            &&& tables[i].seal is Some && moved_since(tables[i].seal->Some_0)
                ==> tables[i].cold_check is Ok
        },
        refreshed(tables, tables.len() as int).contains(t) <==> {
            &&& t < tables.len()
            &&& tables[t as int].has_local_changes
            &&& tables[t as int].has_store
            &&& tables[t as int].seal is Some
            &&& moved_since(tables[t as int].seal->Some_0)
        },
{
    let staged = staging_check(removals);
    lemma_no_refusal(0, removals.len() as int, staged);
    let check = |i: int| commit_refusal(tables[i]);
    lemma_no_refusal(0, tables.len() as int, check);
    if 0 <= i < removals.len() {
        assert(staged(i) is None);
    }
    if 0 <= i < tables.len() {
        assert(check(i) is None);
    }
    lemma_refreshed(tables, tables.len() as int, t);
}

/// Cold segments came up since a row was written: the generation is another one
/// than was noted, or none was noted and there are segments.
pub open spec fn moved_since(seal: SealState) -> bool {
    match seal.recorded {
        Some(generation) => generation != seal.current,
        None => seal.has_segments,
    }
}

proof fn lemma_refreshed(tables: Seq<CommitTable>, n: int, t: usize)
    requires
        0 <= n <= tables.len() <= usize::MAX,
    ensures
        refreshed(tables, n).contains(t) <==> {
            &&& t < n
            &&& tables[t as int].has_local_changes
            &&& tables[t as int].has_store
            &&& tables[t as int].seal is Some
            &&& moved_since(tables[t as int].seal->Some_0)
        },
    decreases n,
{
    if n > 0 {
        lemma_refreshed(tables, n - 1, t);
        let short = refreshed(tables, n - 1);
        let last = (n - 1) as usize;
        let long = short.push(last);
        if short.contains(t) {
            let k = choose|k: int| 0 <= k < short.len() && short[k] == t;
            assert(long[k] == t);
        }
        assert(long[short.len() as int] == last);
        if long.contains(t) {
            let k = choose|k: int| 0 <= k < long.len() && long[k] == t;
            if k < short.len() {
                assert(short[k] == t);
            }
        }
    }
}

} // verus!
