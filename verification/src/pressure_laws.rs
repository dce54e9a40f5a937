//! What the watermarks are for.
use crate::pressure::any_exceeds_budget;
use crate::pressure::deciding_table;
use crate::pressure::l0_pressure;
use crate::pressure::total_hot_bytes;
use crate::pressure::HotTable;
use crate::pressure::L0DebtSnapshot;
use crate::pressure::L0PressureLevel;
use crate::pressure::L0PressureLimits;
use crate::pressure::TableDebt;
use vstd::prelude::*;

verus! {

/// A table is hard pressed where its segments or their bytes reach the hard
/// limit, softly where one of them reaches the soft one, else not.
pub proof fn law_levels_are_the_limits_reached(debt: L0DebtSnapshot, limits: L0PressureLimits)
    ensures
        l0_pressure(debt, limits) == L0PressureLevel::Hard <==> debt.segments
            >= limits.hard_segments || debt.physical_bytes >= limits.hard_bytes,
        l0_pressure(debt, limits) == L0PressureLevel::Normal <==> debt.segments
            < limits.soft_segments && debt.physical_bytes < limits.soft_bytes && debt.segments
            < limits.hard_segments && debt.physical_bytes < limits.hard_bytes,
{
}

/// A commit is stopped for a table over the hard limit wherever it touched one,
/// and passes where it touched none that reaches a limit.
pub proof fn law_worst_touched_table_decides(
    tables: Seq<TableDebt>,
    limits: L0PressureLimits,
    chosen: Option<int>,
    i: int,
)
    requires
        deciding_table(tables, limits, chosen),
        0 <= i < tables.len(),
    ensures
        tables[i].debt.segments >= limits.hard_segments || tables[i].debt.physical_bytes
            >= limits.hard_bytes ==> chosen is Some && 0 <= chosen->Some_0 < tables.len() && (
        tables[chosen->Some_0].debt.segments >= limits.hard_segments
            || tables[chosen->Some_0].debt.physical_bytes >= limits.hard_bytes),
        tables[i].debt.segments >= limits.soft_segments || tables[i].debt.physical_bytes
            >= limits.soft_bytes ==> chosen is Some,
{
    assert(tables[i] == tables[i]);
}

/// Bytes of the first `n` tables, added up.
pub open spec fn sum_of_bytes(tables: Seq<HotTable>, n: int) -> int
    decreases n,
{
    if n <= 0 {
        0
    } else {
        sum_of_bytes(tables, n - 1) + tables[n - 1].hot_bytes
    }
}

/// The total of hot bytes is the sum over all tables, as far as a size can
/// hold it; it never falls below that of any one table.
pub proof fn law_hot_total_is_the_sum(tables: Seq<HotTable>, n: int, i: int)
    requires
        0 <= i < n <= tables.len(),
    ensures
        0 <= sum_of_bytes(tables, n),
        sum_of_bytes(tables, n) <= usize::MAX ==> total_hot_bytes(tables, n) == sum_of_bytes(
            tables,
            n,
        ),
        sum_of_bytes(tables, n) > usize::MAX ==> total_hot_bytes(tables, n) == usize::MAX,
        tables[i].hot_bytes <= total_hot_bytes(tables, n),
    decreases n,
{
    lemma_hot_total(tables, n - 1);
    if i < n - 1 {
        law_hot_total_is_the_sum(tables, n - 1, i);
    }
}

proof fn lemma_hot_total(tables: Seq<HotTable>, n: int)
    requires
        0 <= n <= tables.len(),
    ensures
        0 <= sum_of_bytes(tables, n),
        sum_of_bytes(tables, n) <= usize::MAX ==> total_hot_bytes(tables, n) == sum_of_bytes(
            tables,
            n,
        ),
        sum_of_bytes(tables, n) > usize::MAX ==> total_hot_bytes(tables, n) == usize::MAX,
    decreases n,
{
    if n > 0 {
        lemma_hot_total(tables, n - 1);
    }
}

/// A table has used up its budget where its hot bytes reach the one for tables
/// without segments or, where it has some, the one for tables with them.
pub proof fn law_budget_depends_on_segments(
    tables: Seq<HotTable>,
    first_bytes: usize,
    incremental_bytes: usize,
)
    ensures
        any_exceeds_budget(tables, first_bytes, incremental_bytes) <==> exists|i: int|
            0 <= i < tables.len() && (((#[trigger] tables[i]).has_segments && tables[i].hot_bytes
                >= incremental_bytes) || (!tables[i].has_segments && tables[i].hot_bytes
                >= first_bytes)),
{
    if any_exceeds_budget(tables, first_bytes, incremental_bytes) {
        let i = choose|i: int|
            0 <= i < tables.len() && crate::pressure::exceeds_budget(
                #[trigger] tables[i],
                first_bytes,
                incremental_bytes,
            );
        assert(tables[i].hot_bytes == tables[i].hot_bytes);
    }
    if exists|i: int|
        0 <= i < tables.len() && (((#[trigger] tables[i]).has_segments && tables[i].hot_bytes
            >= incremental_bytes) || (!tables[i].has_segments && tables[i].hot_bytes
            >= first_bytes)) {
        let i = choose|i: int|
            0 <= i < tables.len() && (((#[trigger] tables[i]).has_segments && tables[i].hot_bytes
                >= incremental_bytes) || (!tables[i].has_segments && tables[i].hot_bytes
                >= first_bytes));
        assert(crate::pressure::exceeds_budget(tables[i], first_bytes, incremental_bytes));
    }
}

} // verus!
