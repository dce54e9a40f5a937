//! Order, width and retries of compaction waves.
use crate::compaction::abort::compaction_publication_is_stale;
use crate::compaction::abort::is_stale;
use crate::error::Error;
use crate::error::ErrorView;
use crate::num::max_size;
use crate::num::min_size;
use crate::num::spec_max;
use crate::num::spec_min;
use crate::pressure::classify_l0_pressure;
use crate::pressure::l0_pressure;
use crate::pressure::severity;
use crate::pressure::L0DebtSnapshot;
use crate::pressure::L0PressureLevel;
use crate::pressure::L0PressureLimits;
use crate::pressure::TableDebt;
use crate::sort::is_permutation;
use crate::sort::sorted;
use crate::sort::SortKey;
use crate::text::is_text_before;
use crate::text::lemma_text_before_total;
use crate::text::lemma_text_before_transitive;
use crate::text::same_text;
use crate::text::text_before;
use vstd::prelude::*;

verus! {

/// Plans after a lost publication race before the wave gives up.
pub const COMPACTION_STALE_REPLAN_LIMIT: usize = 2;

/// `a` is compacted no later than `b`: higher pressure first, then more
/// segments, then more bytes, then the earlier name.
pub open spec fn compacts_before(a: TableDebt, b: TableDebt, limits: L0PressureLimits) -> bool {
    let la = severity(l0_pressure(a.debt, limits));
    let lb = severity(l0_pressure(b.debt, limits));
    ||| la > lb
    ||| la == lb && a.debt.segments > b.debt.segments
    ||| la == lb && a.debt.segments == b.debt.segments && a.debt.physical_bytes
        > b.debt.physical_bytes
    ||| la == lb && a.debt.segments == b.debt.segments && a.debt.physical_bytes
        == b.debt.physical_bytes && !text_before(b.table@, a.table@)
}

/// A table together with the limits it is ranked under.
struct Ranked {
    table: TableDebt,
    limits: L0PressureLimits,
}

impl SortKey for Ranked {
    closed spec fn leq(self, other: Self) -> bool {
        let a = self.table;
        let b = other.table;
        let la = severity(l0_pressure(a.debt, self.limits));
        let lb = severity(l0_pressure(b.debt, other.limits));
        ||| la > lb
        ||| la == lb && a.debt.segments > b.debt.segments
        ||| la == lb && a.debt.segments == b.debt.segments && a.debt.physical_bytes
            > b.debt.physical_bytes
        ||| la == lb && a.debt.segments == b.debt.segments && a.debt.physical_bytes
            == b.debt.physical_bytes && !text_before(b.table@, a.table@)
    }

    proof fn lemma_total(a: Self, b: Self) {
        lemma_text_before_total(a.table.table@, b.table.table@);
    }

    proof fn lemma_transitive(a: Self, b: Self, c: Self) {
        let x = a.table.table@;
        let y = b.table.table@;
        let z = c.table.table@;
        lemma_text_before_total(x, y);
        lemma_text_before_total(y, z);
        lemma_text_before_total(x, z);
        if text_before(z, x) && !text_before(y, x) && !text_before(z, y) {
            if x != y {
                lemma_text_before_transitive(z, x, y);
            }
        }
    }

    fn is_leq(&self, other: &Self) -> (r: bool) {
        let la: u8 = severity_code(classify_l0_pressure(self.table.debt, self.limits));
        let lb: u8 = severity_code(classify_l0_pressure(other.table.debt, other.limits));
        let a: L0DebtSnapshot = self.table.debt;
        let b: L0DebtSnapshot = other.table.debt;
        if la != lb {
            la > lb
        } else if a.segments != b.segments {
            a.segments > b.segments
        } else if a.physical_bytes != b.physical_bytes {
            a.physical_bytes > b.physical_bytes
        } else {
            !is_text_before(other.table.table.as_str(), self.table.table.as_str())
        }
    }
}

fn severity_code(level: L0PressureLevel) -> (r: u8)
    ensures
        r == severity(level),
{
    match level {
        L0PressureLevel::Normal => 0,
        L0PressureLevel::Soft => 1,
        L0PressureLevel::Hard => 2,
    }
}

pub open spec fn in_compaction_order(tables: Seq<TableDebt>, limits: L0PressureLimits) -> bool {
    forall|i: int, j: int|
        0 <= i < j < tables.len() ==> compacts_before(
            #[trigger] tables[i],
            #[trigger] tables[j],
            limits,
        )
}

spec fn tables_of(ranked: Seq<Ranked>) -> Seq<TableDebt> {
    ranked.map_values(|r: Ranked| r.table)
}

proof fn lemma_map_multiset(a: Seq<Ranked>, b: Seq<Ranked>)
    requires
        a.to_multiset() == b.to_multiset(),
    ensures
        tables_of(a).to_multiset() == tables_of(b).to_multiset(),
    decreases a.len(),
{
    a.to_multiset_ensures();
    b.to_multiset_ensures();
    if a.len() == 0 {
        assert(a.to_multiset().len() == 0);
        assert(b.to_multiset().len() == b.len());
        assert(tables_of(a) =~= tables_of(b));
    } else {
        let x = a.last();
        assert(a.to_multiset().count(x) > 0);
        assert(b.contains(x));
        let k = choose|k: int| 0 <= k < b.len() && b[k] == x;
        let b2 = b.remove(k);
        let a2 = a.drop_last();
        assert(a =~= a2.push(x));
        a2.to_multiset_ensures();
        assert(a.to_multiset() =~= a2.to_multiset().insert(x));
        assert(b2.to_multiset() =~= b.to_multiset().remove(x));
        assert(a2.to_multiset() =~= b2.to_multiset());
        lemma_map_multiset(a2, b2);
        let ta = tables_of(a);
        let tb = tables_of(b);
        assert(ta =~= tables_of(a2).push(x.table));
        tables_of(a2).to_multiset_ensures();
        tb.to_multiset_ensures();
        assert(tb.remove(k) =~= tables_of(b2));
        assert(tb.remove(k).to_multiset() =~= tb.to_multiset().remove(x.table));
        assert(tb[k] == x.table);
        assert(tb.contains(x.table));
        assert(tb.to_multiset().count(x.table) > 0);
        assert(tb.to_multiset() =~= tb.to_multiset().remove(x.table).insert(x.table));
        assert(ta.to_multiset() =~= tables_of(a2).to_multiset().insert(x.table));
    }
}

/// Orders tables so that the one nearest a hard writer stop is retired first.
pub fn prioritize_compaction_tables(
    candidates: &mut Vec<TableDebt>,
    limits: L0PressureLimits,
)
    ensures
        is_permutation(final(candidates)@, old(candidates)@),
        in_compaction_order(final(candidates)@, limits),
{
    let ghost all = candidates@;
    let mut ranked: Vec<Ranked> = Vec::new();
    let mut rest: Vec<TableDebt> = Vec::new();
    rest.append(candidates);
    while rest.len() > 0
        invariant
            rest@.len() + ranked@.len() == all.len(),
            rest@ == all.take(rest@.len() as int),
            forall|i: int|
                0 <= i < ranked@.len() ==> (#[trigger] ranked@[i]).limits == limits
                    && ranked@[i].table == all[all.len() - 1 - i],
        decreases rest@.len(),
    {
        let table: TableDebt = rest.pop().unwrap();
        ranked.push(Ranked { table, limits });
    }
    let ghost reversed = ranked@;
    let ordered: Vec<Ranked> = sorted(ranked);
    proof {
        crate::sort::lemma_permutation(ordered@, reversed);
        lemma_map_multiset(ordered@, reversed);
        assert(tables_of(reversed) =~= all.reverse());
        lemma_reverse_multiset(all);
    }
    let ghost final_order = ordered@;
    let mut ordered = ordered;
    let mut backwards: Vec<TableDebt> = Vec::new();
    while ordered.len() > 0
        invariant
            ordered@.len() + backwards@.len() == final_order.len(),
            ordered@ == final_order.take(ordered@.len() as int),
            forall|i: int|
                0 <= i < backwards@.len() ==> #[trigger] backwards@[i] == final_order[final_order.len()
                    - 1 - i].table,
        decreases ordered@.len(),
    {
        let item: Ranked = ordered.pop().unwrap();
        backwards.push(item.table);
    }
    let ghost b = backwards@;
    candidates.clear();
    while backwards.len() > 0
        invariant
            backwards@.len() + candidates@.len() == final_order.len(),
            b.len() == final_order.len(),
            backwards@ == b.take(backwards@.len() as int),
            forall|i: int|
                0 <= i < b.len() ==> #[trigger] b[i] == final_order[final_order.len() - 1
                    - i].table,
            forall|i: int|
                0 <= i < candidates@.len() ==> #[trigger] candidates@[i] == final_order[i].table,
        decreases backwards@.len(),
    {
        let table: TableDebt = backwards.pop().unwrap();
        candidates.push(table);
    }
    proof {
        assert(candidates@ =~= tables_of(final_order));
        assert forall|i: int, j: int| 0 <= i < j < candidates@.len() implies compacts_before(
            #[trigger] candidates@[i],
            #[trigger] candidates@[j],
            limits,
        ) by {
            assert(final_order[i].leq(final_order[j]));
            assert(reversed.contains(final_order[i]));
            assert(reversed.contains(final_order[j]));
        }
    }
}

proof fn lemma_reverse_multiset(s: Seq<TableDebt>)
    ensures
        s.reverse().to_multiset() == s.to_multiset(),
    decreases s.len(),
{
    if s.len() == 0 {
        assert(s.reverse() =~= s);
    } else {
        let shorter = s.drop_last();
        lemma_reverse_multiset(shorter);
        assert(s.reverse() =~= seq![s.last()] + shorter.reverse());
        vstd::seq_lib::lemma_multiset_commutative(seq![s.last()], shorter.reverse());
        vstd::seq_lib::lemma_multiset_commutative(shorter, seq![s.last()]);
        assert(s =~= shorter + seq![s.last()]);
        assert(s.to_multiset() =~= s.reverse().to_multiset());
    }
}

/// Bounds one background wave. The result tells whether tables were left out;
/// without a bound the wave stays complete.
pub fn limit_compaction_wave<T>(candidates: &mut Vec<T>, max_tables: Option<usize>) -> (r: bool)
    ensures
        match max_tables {
            None => !r && final(candidates)@ == old(candidates)@,
            Some(limit) => {
                let width = spec_max(limit as int, 1);
                &&& r == (old(candidates)@.len() > width)
                &&& final(candidates)@ == old(candidates)@.take(
                    spec_min(old(candidates)@.len() as int, width),
                )
            },
        },
{
    match max_tables {
        None => false,
        Some(limit) => {
            let width: usize = max_size(limit, 1);
            let more: bool = candidates.len() > width;
            let ghost all = candidates@;
            candidates.truncate(width);
            assert(candidates@ =~= all.take(spec_min(all.len() as int, width as int)));
            more
        },
    }
}

/// Two tables of the wave have the same name.
pub open spec fn repeats_a_table(tables: Seq<String>) -> bool {
    exists|i: int, j: int|
        0 <= i < j < tables.len() && #[trigger] tables[i]@ == #[trigger] tables[j]@
}

/// Configured jobs, held between one and the engine's cap, and never more
/// than there are tables.
pub open spec fn job_width(max_jobs: usize, job_cap: usize, tables: nat) -> int {
    spec_min(
        spec_min(spec_max(max_jobs as int, 1), job_cap as int),
        spec_max(tables as int, 1),
    )
}

/// Number of tables to compact side by side. A wave with a repeated table is
/// refused.
pub fn plan_compaction_jobs(tables: &Vec<String>, max_jobs: usize, job_cap: usize) -> (r: Result<
    usize,
    Error,
>)
    requires
        job_cap >= 1,
    ensures
        match r {
            Ok(width) => !repeats_a_table(tables@) && width == job_width(
                max_jobs,
                job_cap,
                tables@.len(),
            ),
            Err(e) => repeats_a_table(tables@) && e@ == ErrorView::Internal(
                "compaction scheduler received a duplicate table owner"@,
            ),
        },
{
    let mut i: usize = 0;
    while i < tables.len()
        invariant
            0 <= i <= tables@.len(),
            forall|a: int, b: int|
                0 <= a < b < i ==> #[trigger] tables@[a]@ != #[trigger] tables@[b]@,
        decreases tables@.len() - i,
    {
        let mut j: usize = 0;
        while j < i
            invariant
                0 <= j <= i < tables@.len(),
                forall|a: int| 0 <= a < j ==> #[trigger] tables@[a]@ != tables@[i as int]@,
            decreases i - j,
        {
            if same_text(tables[j].as_str(), tables[i].as_str()) {
                assert(tables@[j as int]@ == tables@[i as int]@);
                return Err(
                    Error::internal("compaction scheduler received a duplicate table owner"),
                );
            }
            j = j + 1;
        }
        i = i + 1;
    }
    Ok(
        min_size(
            min_size(max_size(max_jobs, 1), job_cap),
            max_size(tables.len(), 1),
        ),
    )
}

/// How one job of a parallel batch ended.
#[derive(Debug)]
pub enum JobOutcome {
    Finished(Result<(), Error>),
    Panicked,
}

pub open spec fn outcome_is_stale(outcome: JobOutcome) -> bool {
    match outcome {
        JobOutcome::Finished(Err(e)) => is_stale(e@),
        _ => false,
    }
}

/// A failure that ends the wave, if the outcome is one.
pub open spec fn outcome_failure(outcome: JobOutcome) -> Option<ErrorView> {
    match outcome {
        JobOutcome::Finished(Ok(())) => None,
        JobOutcome::Finished(Err(e)) => if is_stale(e@) {
            None
        } else {
            Some(e@)
        },
        JobOutcome::Panicked => Some(ErrorView::Internal("compaction worker panicked"@)),
    }
}

/// The first failure among the outcomes.
pub open spec fn first_failure(outcomes: Seq<JobOutcome>) -> Option<ErrorView>
    decreases outcomes.len(),
{
    if outcomes.len() == 0 {
        None
    } else {
        match first_failure(outcomes.drop_last()) {
            Some(e) => Some(e),
            None => outcome_failure(outcomes.last()),
        }
    }
}

/// Positions of the outcomes that lost the publication race.
pub open spec fn stale_positions(outcomes: Seq<JobOutcome>) -> Seq<usize>
    decreases outcomes.len(),
{
    if outcomes.len() == 0 {
        Seq::empty()
    } else if outcome_is_stale(outcomes.last()) {
        stale_positions(outcomes.drop_last()).push((outcomes.len() - 1) as usize)
    } else {
        stale_positions(outcomes.drop_last())
    }
}

/// Judges a parallel batch: the first failure ends the wave; otherwise the
/// jobs that lost the publication race are planned anew, one after another.
pub fn judge_batch(outcomes: Vec<JobOutcome>) -> (r: Result<Vec<usize>, Error>)
    ensures
        match r {
            Ok(stale) => first_failure(outcomes@) is None && stale@ == stale_positions(outcomes@),
            Err(e) => first_failure(outcomes@) == Some(e@),
        },
{
    let ghost all = outcomes@;
    let n: usize = outcomes.len();
    let mut outcomes = outcomes;
    let mut failure: Option<Error> = None;
    let mut stale: Vec<usize> = Vec::new();
    let mut i: usize = 0;
    let mut rest: Vec<JobOutcome> = Vec::new();
    // Reverse once so that outcomes can be taken out in order.
    while outcomes.len() > 0
        invariant
            n == all.len(),
            outcomes@.len() + rest@.len() == n,
            outcomes@ == all.take(outcomes@.len() as int),
            forall|k: int| 0 <= k < rest@.len() ==> #[trigger] rest@[k] == all[n - 1 - k],
        decreases outcomes@.len(),
    {
        let item: JobOutcome = outcomes.pop().unwrap();
        rest.push(item);
    }
    while i < n
        invariant
            0 <= i <= n == all.len(),
            rest@.len() == n - i,
            forall|k: int| 0 <= k < rest@.len() ==> #[trigger] rest@[k] == all[n - 1 - k],
            stale@ == stale_positions(all.take(i as int)),
            match failure {
                None => first_failure(all.take(i as int)) is None,
                Some(e) => first_failure(all.take(i as int)) == Some(e@),
            },
        decreases n - i,
    {
        let outcome: JobOutcome = rest.pop().unwrap();
        proof {
            assert(outcome == all[i as int]);
            assert(all.take(i + 1).drop_last() =~= all.take(i as int));
            assert(all.take(i + 1).last() == all[i as int]);
        }
        match outcome {
            JobOutcome::Finished(Ok(())) => {},
            JobOutcome::Finished(Err(error)) => {
                if compaction_publication_is_stale(&error) {
                    stale.push(i);
                } else if failure.is_none() {
                    failure = Some(error);
                }
            },
            JobOutcome::Panicked => {
                if failure.is_none() {
                    failure = Some(Error::internal("compaction worker panicked"));
                }
            },
        }
        i = i + 1;
    }
    assert(all.take(n as int) =~= all);
    match failure {
        Some(error) => Err(error),
        None => Ok(stale),
    }
}

/// What follows one try of a job.
#[derive(Debug)]
pub enum ReplanStep {
    Finish(Result<(), Error>),
    Replan,
}

/// Decides after one try: a lost publication race is planned anew, at most
/// twice; everything else is the result.
pub fn after_compaction_try(replans: usize, outcome: Result<(), Error>) -> (step: ReplanStep)
    ensures
        match outcome {
            Err(e) if is_stale(e@) && replans < COMPACTION_STALE_REPLAN_LIMIT => step is Replan,
            _ => step == ReplanStep::Finish(outcome),
        },
{
    let replan: bool = match &outcome {
        Ok(_) => false,
        Err(error) => replans < COMPACTION_STALE_REPLAN_LIMIT && compaction_publication_is_stale(
            error,
        ),
    };
    if replan {
        ReplanStep::Replan
    } else {
        ReplanStep::Finish(outcome)
    }
}

/// Whether a try lost the publication race.
pub open spec fn lost_race(outcome: Result<(), Error>) -> bool {
    outcome matches Err(e) && is_stale(e@)
}

/// The tries of one job: every one but the last lost the race, and the last
/// one either did not or used up the replans.
pub open spec fn are_tries<F: Fn(&str) -> Result<(), Error>>(
    compact_table: F,
    table: &str,
    tries: Seq<Result<(), Error>>,
    n: int,
) -> bool {
    &&& tries.len() == n
    &&& n <= COMPACTION_STALE_REPLAN_LIMIT + 1
    &&& forall|i: int|
        0 <= i < n ==> call_ensures(compact_table, (table,), #[trigger] tries[i])
    &&& forall|i: int| 0 <= i < n - 1 ==> lost_race(#[trigger] tries[i])
    &&& n > 0 && lost_race(tries.last()) ==> n == COMPACTION_STALE_REPLAN_LIMIT + 1
}

/// Runs one job, planning it anew after a lost race. The result is that of the
/// last try; a lost race comes back only after every replan is used.
pub fn run_compaction_job_with_stale_replans<F: Fn(&str) -> Result<(), Error>>(
    table: &str,
    compact_table: &F,
) -> (r: Result<(), Error>)
    requires
        call_requires(compact_table, (table,)),
    ensures
        exists|tries: Seq<Result<(), Error>>|
            #[trigger] are_tries(*compact_table, table, tries, tries.len() as int) && tries.len()
                > 0 && tries.last() == r,
{
    let mut replans: usize = 0;
    let ghost mut tries: Seq<Result<(), Error>> = Seq::empty();
    loop
        invariant
            replans <= COMPACTION_STALE_REPLAN_LIMIT,
            call_requires(compact_table, (table,)),
            tries.len() == replans,
            forall|i: int|
                0 <= i < tries.len() ==> lost_race(#[trigger] tries[i]) && call_ensures(
                    *compact_table,
                    (table,),
                    tries[i],
                ),
        decreases COMPACTION_STALE_REPLAN_LIMIT - replans,
    {
        let outcome: Result<(), Error> = compact_table(table);
        proof {
            tries = tries.push(outcome);
        }
        match after_compaction_try(replans, outcome) {
            ReplanStep::Finish(result) => {
                assert(are_tries(*compact_table, table, tries, tries.len() as int));
                return result;
            },
            ReplanStep::Replan => {
                replans = replans + 1;
            },
        }
    }
}

} // verus!
