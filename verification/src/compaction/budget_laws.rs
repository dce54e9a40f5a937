//! What the limits on compaction are for.
use super::budget::probe_refusal;
use super::budget::reserve_refusal;
use super::budget::time_refusal;
use super::budget::AvailableBytes;
use super::budget::CompactionDiskReservationPool;
use super::budget::CompactionExecutionBudget;
use super::cooldown::has_signature;
use super::cooldown::is_recorded;
use super::cooldown::kept;
use super::cooldown::CompactionRetryEntry;
use super::cooldown::MAX_COMPACTION_RETRY_ENTRIES;
use super::schedule::compacts_before;
use super::schedule::first_failure;
use super::schedule::job_width;
use super::schedule::outcome_is_stale;
use super::schedule::stale_positions;
use super::schedule::JobOutcome;
use crate::pressure::L0PressureLimits;
use crate::pressure::TableDebt;
use vstd::prelude::*;

verus! {

/// A job is let in only where the disk holds what it may write, what the other
/// jobs may still write and the reserve, all together; a file system that does
/// not say how much it holds stops nobody.
pub proof fn law_reserved_output_fits_the_disk(
    pool: CompactionDiskReservationPool,
    max_output_bytes: u64,
    disk_reserve_bytes: u64,
    available: AvailableBytes,
)
    ensures
        ({
            let own: int = if max_output_bytes == 0 {
                1
            } else {
                max_output_bytes as int
            };
            let required = disk_reserve_bytes + pool.remaining_output_bytes + own;
            reserve_refusal(pool, max_output_bytes, disk_reserve_bytes, available) is None <==> {
                &&& required <= u64::MAX
                &&& available is Ok
                &&& available->Ok_0 is Some ==> available->Ok_0->Some_0 >= required
            }
        }),
{
}

/// A job stops for want of time exactly once its budget is used up.
pub proof fn law_time_budget_is_kept(time_budget_ms: Option<u64>, elapsed_nanos: u64)
    ensures
        time_budget_ms is None ==> time_refusal(time_budget_ms, elapsed_nanos) is None,
        time_budget_ms is Some ==> (time_refusal(time_budget_ms, elapsed_nanos) is Some
            <==> elapsed_nanos >= time_budget_ms->Some_0 * 1_000_000),
{
}

/// A job pauses only while it has moved more bytes than its rate allows for the
/// time that has gone by, never for more than fifty milliseconds at a time, and
/// without a rate never.
pub proof fn law_pause_keeps_the_rate(budget: CompactionExecutionBudget, elapsed_nanos: u64)
    requires
        budget.read_bytes + budget.output_bytes <= u64::MAX,
    ensures
        0 <= budget.pause(elapsed_nanos) <= 50_000_000,
        budget.io_bytes_per_sec == 0 ==> budget.pause(elapsed_nanos) == 0,
        budget.pause(elapsed_nanos) > 0 ==> budget.io_bytes_per_sec > 0 && (budget.read_bytes
            + budget.output_bytes) * 1_000_000_000 > elapsed_nanos * budget.io_bytes_per_sec,
        budget.io_bytes_per_sec > 0 && (budget.read_bytes + budget.output_bytes) * 1_000_000_000
            >= (elapsed_nanos + 1) * budget.io_bytes_per_sec && elapsed_nanos < u64::MAX
            ==> budget.pause(elapsed_nanos) > 0,
{
    let moved: int = (budget.read_bytes + budget.output_bytes) * 1_000_000_000;
    let rate: int = budget.io_bytes_per_sec as int;
    let gone: int = elapsed_nanos as int;
    if rate > 0 {
        let due: int = moved / rate;
        assert(0 <= due && due * rate <= moved && moved < (due + 1) * rate) by (nonlinear_arith)
            requires
                rate > 0,
                moved >= 0,
                due == moved / rate,
        ;
        if due > gone {
            assert(moved > gone * rate) by (nonlinear_arith)
                requires
                    due >= gone + 1,
                    due * rate <= moved,
                    rate > 0,
            ;
        }
        if moved >= (gone + 1) * rate {
            assert(due >= gone + 1) by (nonlinear_arith)
                requires
                    moved >= (gone + 1) * rate,
                    moved < (due + 1) * rate,
                    rate > 0,
            ;
        }
    }
}

proof fn lemma_kept(
    entries: Seq<CompactionRetryEntry>,
    now_millis: Option<u64>,
    dropped: Option<u64>,
    e: CompactionRetryEntry,
)
    ensures
        kept(entries, now_millis, dropped).contains(e) <==> {
            &&& entries.contains(e)
            &&& now_millis is Some ==> e.until_millis > now_millis->Some_0
            &&& dropped is Some ==> e.signature != dropped->Some_0
        },
{
    broadcast use vstd::seq_lib::group_filter_ensures;

    let keep = |entry: CompactionRetryEntry|
        super::cooldown::keeps(entry, now_millis, dropped);
    let all = entries.filter(keep);
    if all.contains(e) {
        entries.lemma_filter_contains_rev(keep, e);
        let k = choose|k: int| 0 <= k < all.len() && all[k] == e;
        assert(keep(all[k]));
    }
    if entries.contains(e) && keep(e) {
        let k = choose|k: int| 0 <= k < entries.len() && entries[k] == e;
        entries.lemma_filter_contains(keep, k);
    }
}

/// Inputs wait exactly as long as an entry for them has not run out.
pub proof fn law_inputs_wait_until_their_time(
    entries: Seq<CompactionRetryEntry>,
    now_millis: u64,
    signature: u64,
)
    ensures
        has_signature(kept(entries, Some(now_millis), None), signature) <==> exists|i: int|
            0 <= i < entries.len() && (#[trigger] entries[i]).signature == signature
                && entries[i].until_millis > now_millis,
{
    let live = kept(entries, Some(now_millis), None);
    if has_signature(live, signature) {
        let i = choose|i: int| 0 <= i < live.len() && (#[trigger] live[i]).signature == signature;
        lemma_kept(entries, Some(now_millis), None, live[i]);
        assert(live.contains(live[i]));
        let k = choose|k: int| 0 <= k < entries.len() && entries[k] == live[i];
        assert(entries[k].signature == signature);
    }
    if exists|i: int|
        0 <= i < entries.len() && (#[trigger] entries[i]).signature == signature
            && entries[i].until_millis > now_millis {
        let i = choose|i: int|
            0 <= i < entries.len() && (#[trigger] entries[i]).signature == signature
                && entries[i].until_millis > now_millis;
        lemma_kept(entries, Some(now_millis), None, entries[i]);
        assert(entries.contains(entries[i]));
        let k = choose|k: int| 0 <= k < live.len() && live[k] == entries[i];
        assert(live[k].signature == signature);
    }
}

/// Inputs that failed wait from now on for the time of the cooldown, and what
/// else still waits goes on waiting, the oldest aside where there is no room.
/// Without a cooldown they do not wait.
pub proof fn law_failed_inputs_wait_for_the_cooldown(
    before: Seq<CompactionRetryEntry>,
    after: Seq<CompactionRetryEntry>,
    signature: u64,
    cooldown_ms: u64,
    reason: Seq<char>,
    now_millis: u64,
    now_unix_millis: u64,
    e: CompactionRetryEntry,
)
    requires
        is_recorded(
            before,
            after,
            signature,
            cooldown_ms,
            reason,
            now_millis,
            now_unix_millis,
        ),
        now_millis + cooldown_ms <= u64::MAX,
    ensures
        cooldown_ms == 0 ==> !has_signature(after, signature),
        cooldown_ms > 0 ==> {
            &&& after.len() > 0
            &&& after.last().signature == signature
            &&& after.last().until_millis == now_millis + cooldown_ms
        },
        before.contains(e) && e.signature != signature && e.until_millis > now_millis && (
        cooldown_ms == 0 || kept(before, Some(now_millis), Some(signature)).len()
            < MAX_COMPACTION_RETRY_ENTRIES) ==> after.contains(e),
        after.contains(e) && e.signature != signature ==> before.contains(e) && (cooldown_ms == 0
            || e.until_millis > now_millis),
{
    if cooldown_ms == 0 {
        lemma_kept(before, None, Some(signature), e);
        if has_signature(after, signature) {
            let i = choose|i: int|
                0 <= i < after.len() && (#[trigger] after[i]).signature == signature;
            lemma_kept(before, None, Some(signature), after[i]);
            assert(after.contains(after[i]));
        }
    } else {
        let live = kept(before, Some(now_millis), Some(signature));
        lemma_kept(before, Some(now_millis), Some(signature), e);
        let room = after.drop_last();
        if after.contains(e) && e.signature != signature {
            let k = choose|k: int| 0 <= k < after.len() && after[k] == e;
            assert(k < after.len() - 1);
            assert(room[k] == e);
            if live.len() == MAX_COMPACTION_RETRY_ENTRIES {
                assert(live[k + 1] == e);
            } else {
                assert(live[k] == e);
            }
        }
        if live.contains(e) && live.len() < MAX_COMPACTION_RETRY_ENTRIES {
            let k = choose|k: int| 0 <= k < live.len() && live[k] == e;
            assert(room[k] == e);
            assert(after[k] == e);
        }
    }
}

/// As many jobs run as there are tables, as were asked for and as the machine
/// takes, at least one.
pub proof fn law_job_width_is_bounded(max_jobs: usize, job_cap: usize, tables: nat)
    requires
        job_cap >= 1,
    ensures
        ({
            let width = job_width(max_jobs, job_cap, tables);
            &&& 1 <= width <= job_cap
            &&& max_jobs >= 1 ==> width <= max_jobs
            &&& tables >= 1 ==> width <= tables
            &&& width == job_cap || width == max_jobs || width == tables || width == 1
            &&& max_jobs >= 1 && tables >= 1 && width == 1 ==> job_cap == 1 || max_jobs == 1
                || tables == 1
        }),
{
}

/// A job ended with an error that no other plan can mend.
pub open spec fn is_failure(outcome: JobOutcome) -> bool {
    match outcome {
        JobOutcome::Finished(Ok(())) => false,
        JobOutcome::Finished(Err(e)) => !crate::compaction::abort::is_stale(e@),
        JobOutcome::Panicked => true,
    }
}

/// A batch fails exactly where one of its jobs did; that a job lost a race is
/// no failure.
pub proof fn law_batch_fails_with_a_job(outcomes: Seq<JobOutcome>)
    ensures
        first_failure(outcomes) is Some <==> exists|i: int|
            0 <= i < outcomes.len() && is_failure(#[trigger] outcomes[i]),
    decreases outcomes.len(),
{
    if outcomes.len() > 0 {
        let before = outcomes.drop_last();
        law_batch_fails_with_a_job(before);
        if first_failure(before) is Some {
            let i = choose|i: int| 0 <= i < before.len() && is_failure(#[trigger] before[i]);
            assert(is_failure(outcomes[i]));
        }
        if is_failure(outcomes.last()) {
            assert(is_failure(outcomes[outcomes.len() - 1]));
        }
        if exists|i: int| 0 <= i < outcomes.len() && is_failure(#[trigger] outcomes[i]) {
            let i = choose|i: int| 0 <= i < outcomes.len() && is_failure(#[trigger] outcomes[i]);
            if i < before.len() {
                assert(is_failure(before[i]));
            }
        }
    }
}

/// The jobs to be planned again are those that lost a race, and no others.
pub proof fn law_lost_races_are_planned_again(outcomes: Seq<JobOutcome>, p: usize)
    requires
        outcomes.len() <= usize::MAX,
    ensures
        stale_positions(outcomes).contains(p) <==> p < outcomes.len() && outcome_is_stale(
            outcomes[p as int],
        ),
    decreases outcomes.len(),
{
    if outcomes.len() > 0 {
        let before = outcomes.drop_last();
        law_lost_races_are_planned_again(before, p);
        let short = stale_positions(before);
        let last = (outcomes.len() - 1) as usize;
        let long = short.push(last);
        if short.contains(p) {
            let k = choose|k: int| 0 <= k < short.len() && short[k] == p;
            assert(long[k] == p);
        }
        assert(long[short.len() as int] == last);
        if long.contains(p) {
            let k = choose|k: int| 0 <= k < long.len() && long[k] == p;
            if k < short.len() {
                assert(short[k] == p);
            }
        }
    }
}

/// A table under the hard limit never goes before one that is over it, and
/// among tables that are all over it the one with more segments goes first.
pub proof fn law_worst_debt_goes_first(a: TableDebt, b: TableDebt, limits: L0PressureLimits)
    requires
        compacts_before(a, b, limits),
    ensures
        ({
            let hard_a = a.debt.segments >= limits.hard_segments || a.debt.physical_bytes
                >= limits.hard_bytes;
            let hard_b = b.debt.segments >= limits.hard_segments || b.debt.physical_bytes
                >= limits.hard_bytes;
            &&& hard_b ==> hard_a
            &&& hard_a && hard_b ==> a.debt.segments >= b.debt.segments
            &&& hard_a && hard_b && a.debt.segments == b.debt.segments ==> a.debt.physical_bytes
                >= b.debt.physical_bytes
        }),
{
}

/// A probe stops a job exactly where it fails or reports too little.
pub proof fn law_probe_stops_where_room_is_short(available: AvailableBytes, required: int)
    ensures
        probe_refusal(available, required) is None <==> available is Ok && (available->Ok_0 is Some
            ==> available->Ok_0->Some_0 >= required),
{
}

} // verus!
