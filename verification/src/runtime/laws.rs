//! What the books on compaction and maintenance say.
use super::cost::cancellation_of;
use super::cost::counts_after_deferred;
use super::cost::counts_after_failed;
use super::cost::counts_after_generated;
use super::cost::counts_after_invalidated;
use super::cost::counts_after_published;
use super::cost::counts_after_selected;
use super::cost::counts_after_start;
use super::cost::Cancellation;
use super::cost::CompactionCostJobGuard;
use super::cost::CompactionCounts;
use super::operation::counters_after_finish;
use super::operation::OperationCounters;
use vstd::prelude::*;

verus! {

/// Planning a job books its inputs, and generating its outputs books those,
/// each once.
pub proof fn law_work_is_booked_once(
    counts: CompactionCounts,
    rows: u64,
    bytes: u64,
    posting_outputs: u64,
)
    requires
        counts.jobs_planned < u64::MAX,
        counts.total_logical_input_rows + rows <= u64::MAX,
        counts.total_logical_input_bytes + bytes <= u64::MAX,
        counts.total_generated_output_rows + rows <= u64::MAX,
        counts.total_generated_output_bytes + bytes <= u64::MAX,
        counts.posting_outputs_generated + posting_outputs <= u64::MAX,
    ensures
        ({
            let started = counts_after_start(counts, rows, bytes);
            &&& started.jobs_planned == counts.jobs_planned + 1
            &&& started.total_logical_input_rows == counts.total_logical_input_rows + rows
            &&& started.total_logical_input_bytes == counts.total_logical_input_bytes + bytes
            &&& started.jobs_published == counts.jobs_published
            &&& started.jobs_failed == counts.jobs_failed
            &&& started.jobs_invalidated == counts.jobs_invalidated
        }),
        ({
            let generated = counts_after_generated(counts, rows, bytes, posting_outputs);
            &&& generated.total_generated_output_rows == counts.total_generated_output_rows + rows
            &&& generated.total_generated_output_bytes == counts.total_generated_output_bytes
                + bytes
            &&& generated.posting_outputs_generated == counts.posting_outputs_generated
                + posting_outputs
            &&& generated.jobs_planned == counts.jobs_planned
            &&& generated.total_published_output_rows == counts.total_published_output_rows
        }),
{
}

/// A published job moves all its work to the published side, and nothing to the
/// wasted one.
pub proof fn law_published_work_is_booked_whole(
    counts: CompactionCounts,
    job: CompactionCostJobGuard,
    nanos: u64,
)
    requires
        counts.jobs_published < u64::MAX,
        counts.manifest_publications < u64::MAX,
        counts.total_published_input_rows + job.input_rows <= u64::MAX,
        counts.total_published_input_bytes + job.input_bytes <= u64::MAX,
        counts.total_published_output_rows + job.output_rows <= u64::MAX,
        counts.total_published_output_bytes + job.output_bytes <= u64::MAX,
        counts.posting_outputs_published + job.posting_outputs <= u64::MAX,
        counts.total_manifest_publication_nanos + nanos <= u64::MAX,
    ensures
        ({
            let after = counts_after_published(counts, job, nanos);
            &&& after.jobs_published == counts.jobs_published + 1
            &&& after.manifest_publications == counts.manifest_publications + 1
            &&& after.total_published_input_rows == counts.total_published_input_rows
                + job.input_rows
            &&& after.total_published_input_bytes == counts.total_published_input_bytes
                + job.input_bytes
            &&& after.total_published_output_rows == counts.total_published_output_rows
                + job.output_rows
            &&& after.total_published_output_bytes == counts.total_published_output_bytes
                + job.output_bytes
            &&& after.posting_outputs_published == counts.posting_outputs_published
                + job.posting_outputs
            &&& after.total_manifest_publication_nanos == counts.total_manifest_publication_nanos
                + nanos
            &&& after.last_manifest_publication_nanos == nanos
            &&& after.total_wasted_input_rows == counts.total_wasted_input_rows
            &&& after.total_wasted_output_rows == counts.total_wasted_output_rows
            &&& after.jobs_invalidated == counts.jobs_invalidated
            &&& after.jobs_failed == counts.jobs_failed
        }),
{
}

/// A job whose publication was refused moves all its work to the wasted side,
/// and nothing to the published one; a job that failed moves none.
pub proof fn law_wasted_work_is_booked_whole(
    counts: CompactionCounts,
    job: CompactionCostJobGuard,
    reason: Seq<char>,
)
    requires
        counts.jobs_invalidated < u64::MAX,
        counts.jobs_failed < u64::MAX,
        counts.total_wasted_input_rows + job.input_rows <= u64::MAX,
        counts.total_wasted_input_bytes + job.input_bytes <= u64::MAX,
        counts.total_wasted_output_rows + job.output_rows <= u64::MAX,
        counts.total_wasted_output_bytes + job.output_bytes <= u64::MAX,
        counts.posting_outputs_wasted + job.posting_outputs <= u64::MAX,
    ensures
        ({
            let after = counts_after_invalidated(counts, job, reason);
            &&& after.jobs_invalidated == counts.jobs_invalidated + 1
            &&& after.total_wasted_input_rows == counts.total_wasted_input_rows + job.input_rows
            &&& after.total_wasted_input_bytes == counts.total_wasted_input_bytes
                + job.input_bytes
            &&& after.total_wasted_output_rows == counts.total_wasted_output_rows
                + job.output_rows
            &&& after.total_wasted_output_bytes == counts.total_wasted_output_bytes
                + job.output_bytes
            &&& after.posting_outputs_wasted == counts.posting_outputs_wasted
                + job.posting_outputs
            &&& after.jobs_published == counts.jobs_published
            &&& after.total_published_input_rows == counts.total_published_input_rows
            &&& after.total_published_output_rows == counts.total_published_output_rows
            &&& after.jobs_failed == counts.jobs_failed
        }),
        ({
            let after = counts_after_failed(counts);
            &&& after.jobs_failed == counts.jobs_failed + 1
            &&& after.jobs_published == counts.jobs_published
            &&& after.jobs_invalidated == counts.jobs_invalidated
            &&& after.total_wasted_input_rows == counts.total_wasted_input_rows
        }),
{
}

/// A selection, a wait and a cancellation are each booked under their reason.
pub proof fn law_reasons_are_booked_apart(counts: CompactionCounts)
    requires
        counts.jobs_selected_sub_target_merge < u64::MAX,
        counts.jobs_selected_tombstone_cleanup < u64::MAX,
        counts.jobs_selected_oversized_segment_split < u64::MAX,
        counts.jobs_deferred < u64::MAX,
        counts.jobs_waited_retry_cooldown < u64::MAX,
    ensures
        counts_after_selected(counts, "sub_target_merge"@).jobs_selected_sub_target_merge
            == counts.jobs_selected_sub_target_merge + 1,
        counts_after_selected(counts, "tombstone_cleanup"@).jobs_selected_tombstone_cleanup
            == counts.jobs_selected_tombstone_cleanup + 1,
        counts_after_selected(
            counts,
            "oversized_segment_split"@,
        ).jobs_selected_oversized_segment_split == counts.jobs_selected_oversized_segment_split + 1,
        counts_after_deferred(counts, "retry_cooldown"@).jobs_waited_retry_cooldown
            == counts.jobs_waited_retry_cooldown + 1,
        counts_after_deferred(counts, "retry_cooldown"@).jobs_deferred == counts.jobs_deferred + 1,
        cancellation_of("schema_epoch_changed"@) == Some(Cancellation::SchemaEpoch),
        cancellation_of("input_snapshot_changed"@) == Some(Cancellation::InputSnapshot),
        cancellation_of("time_budget_exceeded"@) == Some(Cancellation::Budget),
        cancellation_of("output_budget_exceeded"@) == Some(Cancellation::Budget),
        cancellation_of("disk_reserve_exhausted"@) == Some(Cancellation::Budget),
        cancellation_of("prepublication_cancelled"@) == Some(Cancellation::Other),
{
    reveal_strlit("sub_target_merge");
    reveal_strlit("tombstone_cleanup");
    reveal_strlit("oversized_segment_split");
    reveal_strlit("retry_cooldown");
    reveal_strlit("schema_epoch_changed");
    reveal_strlit("input_snapshot_changed");
    reveal_strlit("time_budget_exceeded");
    reveal_strlit("output_budget_exceeded");
    reveal_strlit("disk_reserve_exhausted");
    reveal_strlit("budget_admission_failed");
    reveal_strlit("prepublication_cancelled");
    assert("tombstone_cleanup"@.len() != "sub_target_merge"@.len());
    assert("oversized_segment_split"@.len() != "sub_target_merge"@.len());
    assert("oversized_segment_split"@.len() != "tombstone_cleanup"@.len());
    assert("input_snapshot_changed"@.len() != "schema_epoch_changed"@.len());
    assert("time_budget_exceeded"@[0] != "schema_epoch_changed"@[0]);
    assert("time_budget_exceeded"@.len() != "input_snapshot_changed"@.len());
    assert("output_budget_exceeded"@[0] != "input_snapshot_changed"@[0]);
    assert("output_budget_exceeded"@.len() != "schema_epoch_changed"@.len());
    assert("disk_reserve_exhausted"@[0] != "input_snapshot_changed"@[0]);
    assert("disk_reserve_exhausted"@.len() != "schema_epoch_changed"@.len());
    assert("prepublication_cancelled"@.len() != "schema_epoch_changed"@.len());
    assert("prepublication_cancelled"@.len() != "input_snapshot_changed"@.len());
    assert("prepublication_cancelled"@.len() != "time_budget_exceeded"@.len());
    assert("prepublication_cancelled"@.len() != "budget_admission_failed"@.len());
}

/// An operation that ends leaves its work as the last one's and adds it to the
/// total, and is counted and dated on the side of its outcome alone.
pub proof fn law_ended_operation_leaves_its_work(
    counters: OperationCounters,
    success: bool,
    elapsed_nanos: u64,
    now_unix_millis: u64,
)
    requires
        counters.completed < u64::MAX,
        counters.failed < u64::MAX,
        counters.total.input_rows + counters.current.input_rows <= u64::MAX,
        counters.total.input_bytes + counters.current.input_bytes <= u64::MAX,
        counters.total.output_rows + counters.current.output_rows <= u64::MAX,
        counters.total.output_bytes + counters.current.output_bytes <= u64::MAX,
        counters.total.reclaimed_rows + counters.current.reclaimed_rows <= u64::MAX,
        counters.total.reclaimed_bytes + counters.current.reclaimed_bytes <= u64::MAX,
    ensures
        ({
            let after = counters_after_finish(counters, success, elapsed_nanos, now_unix_millis);
            &&& !after.active
            &&& after.calls == counters.calls
            &&& after.epoch == counters.epoch
            &&& after.last == counters.current
            &&& after.last_duration_nanos == elapsed_nanos
            &&& after.total.input_rows == counters.total.input_rows + counters.current.input_rows
            &&& after.total.input_bytes == counters.total.input_bytes
                + counters.current.input_bytes
            &&& after.total.output_rows == counters.total.output_rows
                + counters.current.output_rows
            &&& after.total.output_bytes == counters.total.output_bytes
                + counters.current.output_bytes
            &&& after.total.reclaimed_rows == counters.total.reclaimed_rows
                + counters.current.reclaimed_rows
            &&& after.total.reclaimed_bytes == counters.total.reclaimed_bytes
                + counters.current.reclaimed_bytes
            &&& success ==> after.completed == counters.completed + 1 && after.failed
                == counters.failed && after.last_success_unix_millis == now_unix_millis
                && after.last_failure_unix_millis == counters.last_failure_unix_millis
            &&& !success ==> after.failed == counters.failed + 1 && after.completed
                == counters.completed && after.last_failure_unix_millis == now_unix_millis
                && after.last_success_unix_millis == counters.last_success_unix_millis
        }),
{
}

} // verus!
