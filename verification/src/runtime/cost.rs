//! Ledger of what compaction jobs cost and how they ended.
//!
//! Useful publication is kept apart from work that a stale topology or schema
//! decision threw away.
use crate::text::clip;
use crate::text::clipped;
use crate::text::same_text;
use vstd::prelude::*;

verus! {

/// Characters of a reason that the ledger keeps.
pub const LEDGER_REASON_CHARS: usize = 96;

/// Counters of the ledger. They wrap around.
#[derive(Debug, Clone, Copy, PartialEq, Eq, Structural)]
pub struct CompactionCounts {
    pub jobs_selected_sub_target_merge: u64,
    pub jobs_selected_tombstone_cleanup: u64,
    pub jobs_selected_oversized_segment_split: u64,
    pub jobs_planned: u64,
    pub jobs_deferred: u64,
    pub jobs_waited_retry_cooldown: u64,
    pub jobs_waited_other: u64,
    pub jobs_published: u64,
    pub jobs_invalidated: u64,
    pub jobs_invalidated_topology: u64,
    pub jobs_invalidated_other: u64,
    pub jobs_cancelled_schema_epoch: u64,
    pub jobs_cancelled_input_snapshot: u64,
    pub jobs_cancelled_budget: u64,
    pub jobs_cancelled_other: u64,
    pub jobs_failed: u64,
    pub total_logical_input_rows: u64,
    pub total_logical_input_bytes: u64,
    pub total_generated_output_rows: u64,
    pub total_generated_output_bytes: u64,
    pub total_published_input_rows: u64,
    pub total_published_input_bytes: u64,
    pub total_published_output_rows: u64,
    pub total_published_output_bytes: u64,
    pub total_wasted_input_rows: u64,
    pub total_wasted_input_bytes: u64,
    pub total_wasted_output_rows: u64,
    pub total_wasted_output_bytes: u64,
    pub posting_outputs_generated: u64,
    pub posting_outputs_published: u64,
    pub posting_outputs_wasted: u64,
    pub manifest_publications: u64,
    pub total_manifest_publication_nanos: u64,
    pub last_manifest_publication_nanos: u64,
}

/// Which of the ledger's texts an update replaces.
#[derive(Debug, Clone, Copy, PartialEq, Eq, Structural)]
pub enum ReasonSlot {
    Selection,
    Wait,
    Cancellation,
    Invalidation,
    Outcome,
}

/// The ledger as observers get it.
#[derive(Debug)]
pub struct EngineCompactionCostSnapshot {
    pub jobs_selected_sub_target_merge: u64,
    pub jobs_selected_tombstone_cleanup: u64,
    pub jobs_selected_oversized_segment_split: u64,
    pub jobs_planned: u64,
    pub jobs_deferred: u64,
    pub jobs_waited_retry_cooldown: u64,
    pub jobs_waited_other: u64,
    pub jobs_published: u64,
    pub jobs_invalidated: u64,
    pub jobs_invalidated_topology: u64,
    pub jobs_invalidated_other: u64,
    pub jobs_cancelled_schema_epoch: u64,
    pub jobs_cancelled_input_snapshot: u64,
    pub jobs_cancelled_budget: u64,
    pub jobs_cancelled_other: u64,
    pub jobs_failed: u64,
    pub total_logical_input_rows: u64,
    pub total_logical_input_bytes: u64,
    pub total_generated_output_rows: u64,
    pub total_generated_output_bytes: u64,
    pub total_published_input_rows: u64,
    pub total_published_input_bytes: u64,
    pub total_published_output_rows: u64,
    pub total_published_output_bytes: u64,
    pub total_wasted_input_rows: u64,
    pub total_wasted_input_bytes: u64,
    pub total_wasted_output_rows: u64,
    pub total_wasted_output_bytes: u64,
    pub posting_outputs_generated: u64,
    pub posting_outputs_published: u64,
    pub posting_outputs_wasted: u64,
    pub manifest_publications: u64,
    pub total_manifest_publication_nanos: u64,
    pub last_manifest_publication_nanos: u64,
    pub last_selection_reason: String,
    pub last_wait_reason: String,
    pub last_cancellation_reason: String,
    pub last_invalidation_reason: String,
    pub last_outcome: String,
}

/// The running ledger.
#[derive(Debug)]
pub struct EngineCompactionCostState {
    pub counts: CompactionCounts,
    pub last_selection_reason: String,
    pub last_wait_reason: String,
    pub last_cancellation_reason: String,
    pub last_invalidation_reason: String,
    pub last_outcome: String,
}

/// Content of the ledger's texts.
pub struct CostReasons {
    pub selection: Seq<char>,
    pub wait: Seq<char>,
    pub cancellation: Seq<char>,
    pub invalidation: Seq<char>,
    pub outcome: Seq<char>,
}

/// A counter after one more event.
pub open spec fn bumped(n: u64) -> u64 {
    n.wrapping_add(1)
}

/// A reason as the ledger keeps it.
pub open spec fn kept_reason(reason: Seq<char>) -> Seq<char> {
    clipped(reason, LEDGER_REASON_CHARS as nat)
}

/// Selection of a job counts under its reason; other reasons are ignored.
pub open spec fn counts_after_selected(
    counts: CompactionCounts,
    reason: Seq<char>,
) -> CompactionCounts {
    if reason == "sub_target_merge"@ {
        CompactionCounts {
            jobs_selected_sub_target_merge: bumped(counts.jobs_selected_sub_target_merge),
            ..counts
        }
    } else if reason == "tombstone_cleanup"@ {
        CompactionCounts {
            jobs_selected_tombstone_cleanup: bumped(counts.jobs_selected_tombstone_cleanup),
            ..counts
        }
    } else if reason == "oversized_segment_split"@ {
        CompactionCounts {
            jobs_selected_oversized_segment_split: bumped(
                counts.jobs_selected_oversized_segment_split,
            ),
            ..counts
        }
    } else {
        counts
    }
}

pub open spec fn is_selection_reason(reason: Seq<char>) -> bool {
    ||| reason == "sub_target_merge"@
    ||| reason == "tombstone_cleanup"@
    ||| reason == "oversized_segment_split"@
}

pub open spec fn counts_after_start(
    counts: CompactionCounts,
    input_rows: u64,
    input_bytes: u64,
) -> CompactionCounts {
    CompactionCounts {
        jobs_planned: bumped(counts.jobs_planned),
        total_logical_input_rows: counts.total_logical_input_rows.wrapping_add(input_rows),
        total_logical_input_bytes: counts.total_logical_input_bytes.wrapping_add(input_bytes),
        ..counts
    }
}

pub open spec fn counts_after_deferred(
    counts: CompactionCounts,
    reason: Seq<char>,
) -> CompactionCounts {
    if reason == "retry_cooldown"@ {
        CompactionCounts {
            jobs_deferred: bumped(counts.jobs_deferred),
            jobs_waited_retry_cooldown: bumped(counts.jobs_waited_retry_cooldown),
            ..counts
        }
    } else {
        CompactionCounts {
            jobs_deferred: bumped(counts.jobs_deferred),
            jobs_waited_other: bumped(counts.jobs_waited_other),
            ..counts
        }
    }
}

/// Why a job was cancelled, where its invalidation was a cancellation.
#[derive(Debug, Clone, Copy, PartialEq, Eq, Structural)]
pub enum Cancellation {
    SchemaEpoch,
    InputSnapshot,
    Budget,
    Other,
}

pub open spec fn cancellation_of(reason: Seq<char>) -> Option<Cancellation> {
    if reason == "schema_epoch_changed"@ {
        Some(Cancellation::SchemaEpoch)
    } else if reason == "input_snapshot_changed"@ {
        Some(Cancellation::InputSnapshot)
    } else if reason == "time_budget_exceeded"@ || reason == "output_budget_exceeded"@ || reason
        == "disk_reserve_exhausted"@ || reason == "budget_admission_failed"@ {
        Some(Cancellation::Budget)
    } else if reason == "prepublication_cancelled"@ {
        Some(Cancellation::Other)
    } else {
        None
    }
}

pub open spec fn counts_after_cancellation(
    counts: CompactionCounts,
    cancellation: Option<Cancellation>,
) -> CompactionCounts {
    match cancellation {
        None => counts,
        Some(Cancellation::SchemaEpoch) => CompactionCounts {
            jobs_cancelled_schema_epoch: bumped(counts.jobs_cancelled_schema_epoch),
            ..counts
        },
        Some(Cancellation::InputSnapshot) => CompactionCounts {
            jobs_cancelled_input_snapshot: bumped(counts.jobs_cancelled_input_snapshot),
            ..counts
        },
        Some(Cancellation::Budget) => CompactionCounts {
            jobs_cancelled_budget: bumped(counts.jobs_cancelled_budget),
            ..counts
        },
        Some(Cancellation::Other) => CompactionCounts {
            jobs_cancelled_other: bumped(counts.jobs_cancelled_other),
            ..counts
        },
    }
}

pub open spec fn counts_after_invalidation_reason(
    counts: CompactionCounts,
    reason: Seq<char>,
) -> CompactionCounts {
    let classified = if reason == "topology_publication_rejected"@ {
        CompactionCounts {
            jobs_invalidated_topology: bumped(counts.jobs_invalidated_topology),
            ..counts
        }
    } else {
        CompactionCounts {
            jobs_invalidated_other: bumped(counts.jobs_invalidated_other),
            ..counts
        }
    };
    counts_after_cancellation(classified, cancellation_of(reason))
}

pub open spec fn reasons_after_invalidation(reasons: CostReasons, reason: Seq<char>) -> CostReasons {
    CostReasons {
        invalidation: kept_reason(reason),
        cancellation: if cancellation_of(reason) is Some {
            kept_reason(reason)
        } else {
            reasons.cancellation
        },
        ..reasons
    }
}

fn classify_cancellation(reason: &str) -> (r: Option<Cancellation>)
    ensures
        r == cancellation_of(reason@),
{
    if same_text(reason, "schema_epoch_changed") {
        Some(Cancellation::SchemaEpoch)
    } else if same_text(reason, "input_snapshot_changed") {
        Some(Cancellation::InputSnapshot)
    } else if same_text(reason, "time_budget_exceeded") || same_text(
        reason,
        "output_budget_exceeded",
    ) || same_text(reason, "disk_reserve_exhausted") || same_text(
        reason,
        "budget_admission_failed",
    ) {
        Some(Cancellation::Budget)
    } else if same_text(reason, "prepublication_cancelled") {
        Some(Cancellation::Other)
    } else {
        None
    }
}

impl EngineCompactionCostState {
    pub open spec fn reasons(self) -> CostReasons {
        CostReasons {
            selection: self.last_selection_reason@,
            wait: self.last_wait_reason@,
            cancellation: self.last_cancellation_reason@,
            invalidation: self.last_invalidation_reason@,
            outcome: self.last_outcome@,
        }
    }

    /// An empty ledger.
    pub fn new() -> (r: Self)
        ensures
            r.counts == zero_counts(),
            r.reasons() == (CostReasons {
                selection: Seq::empty(),
                wait: Seq::empty(),
                cancellation: Seq::empty(),
                invalidation: Seq::empty(),
                outcome: Seq::empty(),
            }),
    {
        EngineCompactionCostState {
            counts: CompactionCounts {
                jobs_selected_sub_target_merge: 0,
                jobs_selected_tombstone_cleanup: 0,
                jobs_selected_oversized_segment_split: 0,
                jobs_planned: 0,
                jobs_deferred: 0,
                jobs_waited_retry_cooldown: 0,
                jobs_waited_other: 0,
                jobs_published: 0,
                jobs_invalidated: 0,
                jobs_invalidated_topology: 0,
                jobs_invalidated_other: 0,
                jobs_cancelled_schema_epoch: 0,
                jobs_cancelled_input_snapshot: 0,
                jobs_cancelled_budget: 0,
                jobs_cancelled_other: 0,
                jobs_failed: 0,
                total_logical_input_rows: 0,
                total_logical_input_bytes: 0,
                total_generated_output_rows: 0,
                total_generated_output_bytes: 0,
                total_published_input_rows: 0,
                total_published_input_bytes: 0,
                total_published_output_rows: 0,
                total_published_output_bytes: 0,
                total_wasted_input_rows: 0,
                total_wasted_input_bytes: 0,
                total_wasted_output_rows: 0,
                total_wasted_output_bytes: 0,
                posting_outputs_generated: 0,
                posting_outputs_published: 0,
                posting_outputs_wasted: 0,
                manifest_publications: 0,
                total_manifest_publication_nanos: 0,
                last_manifest_publication_nanos: 0,
            },
            last_selection_reason: String::new(),
            last_wait_reason: String::new(),
            last_cancellation_reason: String::new(),
            last_invalidation_reason: String::new(),
            last_outcome: String::new(),
        }
    }

    /// Replaces one of the texts, clipped.
    pub fn set_reason(&mut self, slot: ReasonSlot, reason: &str)
        ensures
            final(self).counts == old(self).counts,
            final(self).reasons() == (match slot {
                ReasonSlot::Selection => CostReasons {
                    selection: kept_reason(reason@),
                    ..old(self).reasons()
                },
                ReasonSlot::Wait => CostReasons {
                    wait: kept_reason(reason@),
                    ..old(self).reasons()
                },
                ReasonSlot::Cancellation => CostReasons {
                    cancellation: kept_reason(reason@),
                    ..old(self).reasons()
                },
                ReasonSlot::Invalidation => CostReasons {
                    invalidation: kept_reason(reason@),
                    ..old(self).reasons()
                },
                ReasonSlot::Outcome => CostReasons {
                    outcome: kept_reason(reason@),
                    ..old(self).reasons()
                },
            }),
    {
        let kept: String = clip(reason, LEDGER_REASON_CHARS);
        match slot {
            ReasonSlot::Selection => {
                self.last_selection_reason = kept;
            },
            ReasonSlot::Wait => {
                self.last_wait_reason = kept;
            },
            ReasonSlot::Cancellation => {
                self.last_cancellation_reason = kept;
            },
            ReasonSlot::Invalidation => {
                self.last_invalidation_reason = kept;
            },
            ReasonSlot::Outcome => {
                self.last_outcome = kept;
            },
        }
    }

    pub fn set_outcome(&mut self, outcome: &str)
        ensures
            final(self).counts == old(self).counts,
            final(self).reasons() == (CostReasons {
                outcome: kept_reason(outcome@),
                ..old(self).reasons()
            }),
    {
        self.set_reason(ReasonSlot::Outcome, outcome);
    }

    /// A job was chosen for a reason. A reason the ledger does not know
    /// leaves it unchanged.
    pub fn selected(&mut self, reason: &str)
        ensures
            final(self).counts == counts_after_selected(old(self).counts, reason@),
            final(self).reasons() == if is_selection_reason(reason@) {
                (CostReasons { selection: kept_reason(reason@), ..old(self).reasons() })
            } else {
                old(self).reasons()
            },
    {
        if same_text(reason, "sub_target_merge") {
            self.counts.jobs_selected_sub_target_merge =
                self.counts.jobs_selected_sub_target_merge.wrapping_add(1);
        } else if same_text(reason, "tombstone_cleanup") {
            self.counts.jobs_selected_tombstone_cleanup =
                self.counts.jobs_selected_tombstone_cleanup.wrapping_add(1);
        } else if same_text(reason, "oversized_segment_split") {
            self.counts.jobs_selected_oversized_segment_split =
                self.counts.jobs_selected_oversized_segment_split.wrapping_add(1);
        } else {
            return;
        }
        self.set_reason(ReasonSlot::Selection, reason);
    }

    /// A job begins with this much input.
    pub fn start_job(&mut self, input_rows: u64, input_bytes: u64) -> (job: CompactionCostJobGuard)
        ensures
            final(self).counts == counts_after_start(old(self).counts, input_rows, input_bytes),
            final(self).reasons() == old(self).reasons(),
            job == (CompactionCostJobGuard {
                input_rows,
                input_bytes,
                output_rows: 0,
                output_bytes: 0,
                posting_outputs: 0,
            }),
    {
        self.counts.jobs_planned = self.counts.jobs_planned.wrapping_add(1);
        self.counts.total_logical_input_rows =
            self.counts.total_logical_input_rows.wrapping_add(input_rows);
        self.counts.total_logical_input_bytes =
            self.counts.total_logical_input_bytes.wrapping_add(input_bytes);
        CompactionCostJobGuard {
            input_rows,
            input_bytes,
            output_rows: 0,
            output_bytes: 0,
            posting_outputs: 0,
        }
    }

    /// A chosen job was put off.
    pub fn deferred(&mut self, reason: &str)
        ensures
            final(self).counts == counts_after_deferred(old(self).counts, reason@),
            final(self).reasons() == (CostReasons {
                wait: kept_reason(reason@),
                outcome: kept_reason(reason@),
                ..old(self).reasons()
            }),
    {
        self.counts.jobs_deferred = self.counts.jobs_deferred.wrapping_add(1);
        if same_text(reason, "retry_cooldown") {
            self.counts.jobs_waited_retry_cooldown =
                self.counts.jobs_waited_retry_cooldown.wrapping_add(1);
        } else {
            self.counts.jobs_waited_other = self.counts.jobs_waited_other.wrapping_add(1);
        }
        self.set_reason(ReasonSlot::Wait, reason);
        self.set_outcome(reason);
    }

    /// Classifies the reason of an invalidation.
    pub fn record_invalidation(&mut self, reason: &str)
        ensures
            final(self).counts == counts_after_invalidation_reason(old(self).counts, reason@),
            final(self).reasons() == reasons_after_invalidation(old(self).reasons(), reason@),
    {
        if same_text(reason, "topology_publication_rejected") {
            self.counts.jobs_invalidated_topology =
                self.counts.jobs_invalidated_topology.wrapping_add(1);
        } else {
            self.counts.jobs_invalidated_other =
                self.counts.jobs_invalidated_other.wrapping_add(1);
        }
        self.set_reason(ReasonSlot::Invalidation, reason);
        match classify_cancellation(reason) {
            None => {
                return;
            },
            Some(Cancellation::SchemaEpoch) => {
                self.counts.jobs_cancelled_schema_epoch =
                    self.counts.jobs_cancelled_schema_epoch.wrapping_add(1);
            },
            Some(Cancellation::InputSnapshot) => {
                self.counts.jobs_cancelled_input_snapshot =
                    self.counts.jobs_cancelled_input_snapshot.wrapping_add(1);
            },
            Some(Cancellation::Budget) => {
                self.counts.jobs_cancelled_budget =
                    self.counts.jobs_cancelled_budget.wrapping_add(1);
            },
            Some(Cancellation::Other) => {
                self.counts.jobs_cancelled_other =
                    self.counts.jobs_cancelled_other.wrapping_add(1);
            },
        }
        self.set_reason(ReasonSlot::Cancellation, reason);
    }

    /// The ledger for an observer.
    pub fn snapshot(&self) -> (r: EngineCompactionCostSnapshot)
        ensures
            r.counts() == self.counts,
            r.reasons() == self.reasons(),
    {
        EngineCompactionCostSnapshot {
            jobs_selected_sub_target_merge: self.counts.jobs_selected_sub_target_merge,
            jobs_selected_tombstone_cleanup: self.counts.jobs_selected_tombstone_cleanup,
            jobs_selected_oversized_segment_split: self.counts.jobs_selected_oversized_segment_split,
            jobs_planned: self.counts.jobs_planned,
            jobs_deferred: self.counts.jobs_deferred,
            jobs_waited_retry_cooldown: self.counts.jobs_waited_retry_cooldown,
            jobs_waited_other: self.counts.jobs_waited_other,
            jobs_published: self.counts.jobs_published,
            jobs_invalidated: self.counts.jobs_invalidated,
            jobs_invalidated_topology: self.counts.jobs_invalidated_topology,
            jobs_invalidated_other: self.counts.jobs_invalidated_other,
            jobs_cancelled_schema_epoch: self.counts.jobs_cancelled_schema_epoch,
            jobs_cancelled_input_snapshot: self.counts.jobs_cancelled_input_snapshot,
            jobs_cancelled_budget: self.counts.jobs_cancelled_budget,
            jobs_cancelled_other: self.counts.jobs_cancelled_other,
            jobs_failed: self.counts.jobs_failed,
            total_logical_input_rows: self.counts.total_logical_input_rows,
            total_logical_input_bytes: self.counts.total_logical_input_bytes,
            total_generated_output_rows: self.counts.total_generated_output_rows,
            total_generated_output_bytes: self.counts.total_generated_output_bytes,
            total_published_input_rows: self.counts.total_published_input_rows,
            total_published_input_bytes: self.counts.total_published_input_bytes,
            total_published_output_rows: self.counts.total_published_output_rows,
            total_published_output_bytes: self.counts.total_published_output_bytes,
            total_wasted_input_rows: self.counts.total_wasted_input_rows,
            total_wasted_input_bytes: self.counts.total_wasted_input_bytes,
            total_wasted_output_rows: self.counts.total_wasted_output_rows,
            total_wasted_output_bytes: self.counts.total_wasted_output_bytes,
            posting_outputs_generated: self.counts.posting_outputs_generated,
            posting_outputs_published: self.counts.posting_outputs_published,
            posting_outputs_wasted: self.counts.posting_outputs_wasted,
            manifest_publications: self.counts.manifest_publications,
            total_manifest_publication_nanos: self.counts.total_manifest_publication_nanos,
            last_manifest_publication_nanos: self.counts.last_manifest_publication_nanos,
            last_selection_reason: self.last_selection_reason.clone(),
            last_wait_reason: self.last_wait_reason.clone(),
            last_cancellation_reason: self.last_cancellation_reason.clone(),
            last_invalidation_reason: self.last_invalidation_reason.clone(),
            last_outcome: self.last_outcome.clone(),
        }
    }
}

impl EngineCompactionCostSnapshot {
    pub open spec fn counts(self) -> CompactionCounts {
        CompactionCounts {
            jobs_selected_sub_target_merge: self.jobs_selected_sub_target_merge,
            jobs_selected_tombstone_cleanup: self.jobs_selected_tombstone_cleanup,
            jobs_selected_oversized_segment_split: self.jobs_selected_oversized_segment_split,
            jobs_planned: self.jobs_planned,
            jobs_deferred: self.jobs_deferred,
            jobs_waited_retry_cooldown: self.jobs_waited_retry_cooldown,
            jobs_waited_other: self.jobs_waited_other,
            jobs_published: self.jobs_published,
            jobs_invalidated: self.jobs_invalidated,
            jobs_invalidated_topology: self.jobs_invalidated_topology,
            jobs_invalidated_other: self.jobs_invalidated_other,
            jobs_cancelled_schema_epoch: self.jobs_cancelled_schema_epoch,
            jobs_cancelled_input_snapshot: self.jobs_cancelled_input_snapshot,
            jobs_cancelled_budget: self.jobs_cancelled_budget,
            jobs_cancelled_other: self.jobs_cancelled_other,
            jobs_failed: self.jobs_failed,
            total_logical_input_rows: self.total_logical_input_rows,
            total_logical_input_bytes: self.total_logical_input_bytes,
            total_generated_output_rows: self.total_generated_output_rows,
            total_generated_output_bytes: self.total_generated_output_bytes,
            total_published_input_rows: self.total_published_input_rows,
            total_published_input_bytes: self.total_published_input_bytes,
            total_published_output_rows: self.total_published_output_rows,
            total_published_output_bytes: self.total_published_output_bytes,
            total_wasted_input_rows: self.total_wasted_input_rows,
            total_wasted_input_bytes: self.total_wasted_input_bytes,
            total_wasted_output_rows: self.total_wasted_output_rows,
            total_wasted_output_bytes: self.total_wasted_output_bytes,
            posting_outputs_generated: self.posting_outputs_generated,
            posting_outputs_published: self.posting_outputs_published,
            posting_outputs_wasted: self.posting_outputs_wasted,
            manifest_publications: self.manifest_publications,
            total_manifest_publication_nanos: self.total_manifest_publication_nanos,
            last_manifest_publication_nanos: self.last_manifest_publication_nanos,
        }
    }

    pub open spec fn reasons(self) -> CostReasons {
        CostReasons {
            selection: self.last_selection_reason@,
            wait: self.last_wait_reason@,
            cancellation: self.last_cancellation_reason@,
            invalidation: self.last_invalidation_reason@,
            outcome: self.last_outcome@,
        }
    }
}

pub open spec fn zero_counts() -> CompactionCounts {
    CompactionCounts {
        jobs_selected_sub_target_merge: 0,
        jobs_selected_tombstone_cleanup: 0,
        jobs_selected_oversized_segment_split: 0,
        jobs_planned: 0,
        jobs_deferred: 0,
        jobs_waited_retry_cooldown: 0,
        jobs_waited_other: 0,
        jobs_published: 0,
        jobs_invalidated: 0,
        jobs_invalidated_topology: 0,
        jobs_invalidated_other: 0,
        jobs_cancelled_schema_epoch: 0,
        jobs_cancelled_input_snapshot: 0,
        jobs_cancelled_budget: 0,
        jobs_cancelled_other: 0,
        jobs_failed: 0,
        total_logical_input_rows: 0,
        total_logical_input_bytes: 0,
        total_generated_output_rows: 0,
        total_generated_output_bytes: 0,
        total_published_input_rows: 0,
        total_published_input_bytes: 0,
        total_published_output_rows: 0,
        total_published_output_bytes: 0,
        total_wasted_input_rows: 0,
        total_wasted_input_bytes: 0,
        total_wasted_output_rows: 0,
        total_wasted_output_bytes: 0,
        posting_outputs_generated: 0,
        posting_outputs_published: 0,
        posting_outputs_wasted: 0,
        manifest_publications: 0,
        total_manifest_publication_nanos: 0,
        last_manifest_publication_nanos: 0,
    }
}

/// One job between its start and its end. Exactly one of `published`,
/// `invalidated`, `failed` and `abandoned` consumes it.
#[derive(Debug, PartialEq, Eq, Structural)]
pub struct CompactionCostJobGuard {
    pub input_rows: u64,
    pub input_bytes: u64,
    pub output_rows: u64,
    pub output_bytes: u64,
    pub posting_outputs: u64,
}

/// The ledger after a job said what it wrote.
pub open spec fn counts_after_generated(
    counts: CompactionCounts,
    rows: u64,
    bytes: u64,
    posting_outputs: u64,
) -> CompactionCounts {
    CompactionCounts {
        total_generated_output_rows: counts.total_generated_output_rows.wrapping_add(rows),
        total_generated_output_bytes: counts.total_generated_output_bytes.wrapping_add(bytes),
        posting_outputs_generated: counts.posting_outputs_generated.wrapping_add(posting_outputs),
        ..counts
    }
}

pub open spec fn counts_after_published(
    counts: CompactionCounts,
    job: CompactionCostJobGuard,
    nanos: u64,
) -> CompactionCounts {
    CompactionCounts {
        jobs_published: bumped(counts.jobs_published),
        total_published_input_rows: counts.total_published_input_rows.wrapping_add(job.input_rows),
        total_published_input_bytes: counts.total_published_input_bytes.wrapping_add(
            job.input_bytes,
        ),
        total_published_output_rows: counts.total_published_output_rows.wrapping_add(
            job.output_rows,
        ),
        total_published_output_bytes: counts.total_published_output_bytes.wrapping_add(
            job.output_bytes,
        ),
        posting_outputs_published: counts.posting_outputs_published.wrapping_add(
            job.posting_outputs,
        ),
        manifest_publications: bumped(counts.manifest_publications),
        total_manifest_publication_nanos: counts.total_manifest_publication_nanos.wrapping_add(
            nanos,
        ),
        last_manifest_publication_nanos: nanos,
        ..counts
    }
}

pub open spec fn counts_after_invalidated(
    counts: CompactionCounts,
    job: CompactionCostJobGuard,
    reason: Seq<char>,
) -> CompactionCounts {
    let classified = counts_after_invalidation_reason(
        CompactionCounts { jobs_invalidated: bumped(counts.jobs_invalidated), ..counts },
        reason,
    );
    CompactionCounts {
        total_wasted_input_rows: counts.total_wasted_input_rows.wrapping_add(job.input_rows),
        total_wasted_input_bytes: counts.total_wasted_input_bytes.wrapping_add(job.input_bytes),
        total_wasted_output_rows: counts.total_wasted_output_rows.wrapping_add(job.output_rows),
        total_wasted_output_bytes: counts.total_wasted_output_bytes.wrapping_add(job.output_bytes),
        posting_outputs_wasted: counts.posting_outputs_wasted.wrapping_add(job.posting_outputs),
        ..classified
    }
}

pub open spec fn counts_after_failed(counts: CompactionCounts) -> CompactionCounts {
    CompactionCounts { jobs_failed: bumped(counts.jobs_failed), ..counts }
}

impl CompactionCostJobGuard {
    /// Output the job has written so far.
    pub fn set_generated_output(
        &mut self,
        state: &mut EngineCompactionCostState,
        rows: u64,
        bytes: u64,
        posting_outputs: u64,
    )
        ensures
            *final(self) == (CompactionCostJobGuard {
                output_rows: rows,
                output_bytes: bytes,
                posting_outputs,
                ..*old(self)
            }),
            final(state).counts == counts_after_generated(
                old(state).counts,
                rows,
                bytes,
                posting_outputs,
            ),
            final(state).reasons() == old(state).reasons(),
    {
        self.output_rows = rows;
        self.output_bytes = bytes;
        self.posting_outputs = posting_outputs;
        state.counts.total_generated_output_rows =
            state.counts.total_generated_output_rows.wrapping_add(rows);
        state.counts.total_generated_output_bytes =
            state.counts.total_generated_output_bytes.wrapping_add(bytes);
        state.counts.posting_outputs_generated =
            state.counts.posting_outputs_generated.wrapping_add(posting_outputs);
    }

    /// The outputs replaced the inputs.
    pub fn published(self, state: &mut EngineCompactionCostState, manifest_publication_nanos: u64)
        ensures
            final(state).counts == counts_after_published(
                old(state).counts,
                self,
                manifest_publication_nanos,
            ),
            final(state).reasons() == (CostReasons {
                outcome: kept_reason("published"@),
                ..old(state).reasons()
            }),
    {
        let nanos: u64 = manifest_publication_nanos;
        state.counts.jobs_published = state.counts.jobs_published.wrapping_add(1);
        state.counts.total_published_input_rows =
            state.counts.total_published_input_rows.wrapping_add(self.input_rows);
        state.counts.total_published_input_bytes =
            state.counts.total_published_input_bytes.wrapping_add(self.input_bytes);
        state.counts.total_published_output_rows =
            state.counts.total_published_output_rows.wrapping_add(self.output_rows);
        state.counts.total_published_output_bytes =
            state.counts.total_published_output_bytes.wrapping_add(self.output_bytes);
        state.counts.posting_outputs_published =
            state.counts.posting_outputs_published.wrapping_add(self.posting_outputs);
        state.counts.manifest_publications = state.counts.manifest_publications.wrapping_add(1);
        state.counts.total_manifest_publication_nanos =
            state.counts.total_manifest_publication_nanos.wrapping_add(nanos);
        state.counts.last_manifest_publication_nanos = nanos;
        state.set_outcome("published");
    }

    /// The job's work was thrown away.
    pub fn invalidated(self, state: &mut EngineCompactionCostState, reason: &str)
        ensures
            final(state).counts == counts_after_invalidated(old(state).counts, self, reason@),
            final(state).reasons() == (CostReasons {
                outcome: kept_reason(reason@),
                ..reasons_after_invalidation(old(state).reasons(), reason@)
            }),
    {
        state.counts.jobs_invalidated = state.counts.jobs_invalidated.wrapping_add(1);
        state.record_invalidation(reason);
        state.counts.total_wasted_input_rows =
            state.counts.total_wasted_input_rows.wrapping_add(self.input_rows);
        state.counts.total_wasted_input_bytes =
            state.counts.total_wasted_input_bytes.wrapping_add(self.input_bytes);
        state.counts.total_wasted_output_rows =
            state.counts.total_wasted_output_rows.wrapping_add(self.output_rows);
        state.counts.total_wasted_output_bytes =
            state.counts.total_wasted_output_bytes.wrapping_add(self.output_bytes);
        state.counts.posting_outputs_wasted =
            state.counts.posting_outputs_wasted.wrapping_add(self.posting_outputs);
        state.set_outcome(reason);
    }

    /// The job failed for a known reason.
    pub fn failed(self, state: &mut EngineCompactionCostState, reason: &str)
        ensures
            final(state).counts == counts_after_failed(old(state).counts),
            final(state).reasons() == (CostReasons {
                outcome: kept_reason(reason@),
                ..old(state).reasons()
            }),
    {
        state.counts.jobs_failed = state.counts.jobs_failed.wrapping_add(1);
        state.set_outcome(reason);
    }

    /// The job ended without saying how.
    pub fn abandoned(self, state: &mut EngineCompactionCostState)
        ensures
            final(state).counts == counts_after_failed(old(state).counts),
            final(state).reasons() == (CostReasons {
                outcome: kept_reason("failed_unclassified"@),
                ..old(state).reasons()
            }),
    {
        self.failed(state, "failed_unclassified");
    }
}

/// Jobs that began and have not ended, as long as no counter wrapped around.
pub open spec fn open_jobs(counts: CompactionCounts) -> int {
    counts.jobs_planned - counts.jobs_published - counts.jobs_invalidated - counts.jobs_failed
}

/// Every job that begins is closed exactly once: starting opens one, each of
/// the three ways to end closes one, and nothing else moves the balance.
pub proof fn law_every_job_is_closed_once(
    counts: CompactionCounts,
    job: CompactionCostJobGuard,
    reason: Seq<char>,
    nanos: u64,
)
    requires
        counts.jobs_planned < u64::MAX,
        counts.jobs_published < u64::MAX,
        counts.jobs_invalidated < u64::MAX,
        counts.jobs_failed < u64::MAX,
    ensures
        open_jobs(counts_after_start(counts, job.input_rows, job.input_bytes)) == open_jobs(counts)
            + 1,
        open_jobs(counts_after_published(counts, job, nanos)) == open_jobs(counts) - 1,
        open_jobs(counts_after_invalidated(counts, job, reason)) == open_jobs(counts) - 1,
        open_jobs(counts_after_failed(counts)) == open_jobs(counts) - 1,
        open_jobs(counts_after_selected(counts, reason)) == open_jobs(counts),
        open_jobs(counts_after_deferred(counts, reason)) == open_jobs(counts),
{
}

/// Every invalidation is classified once, and every wait once.
pub proof fn law_classifications_add_up(
    counts: CompactionCounts,
    job: CompactionCostJobGuard,
    reason: Seq<char>,
)
    requires
        counts.jobs_invalidated < u64::MAX,
        counts.jobs_deferred < u64::MAX,
        counts.jobs_invalidated == counts.jobs_invalidated_topology + counts.jobs_invalidated_other,
        counts.jobs_deferred == counts.jobs_waited_retry_cooldown + counts.jobs_waited_other,
    ensures
        ({
            let after = counts_after_invalidated(counts, job, reason);
            after.jobs_invalidated == after.jobs_invalidated_topology
                + after.jobs_invalidated_other
        }),
        ({
            let after = counts_after_deferred(counts, reason);
            after.jobs_deferred == after.jobs_waited_retry_cooldown + after.jobs_waited_other
        }),
{
}

/// What can happen to the ledger. Jobs are named by their position among the
/// open ones.
pub enum CostEvent {
    Selected { reason: Seq<char> },
    Deferred { reason: Seq<char> },
    Started { input_rows: u64, input_bytes: u64 },
    Generated { job: int, rows: u64, bytes: u64, posting_outputs: u64 },
    Published { job: int, nanos: u64 },
    Invalidated { job: int, reason: Seq<char> },
    Failed { job: int },
}

/// A job that began and has not ended.
pub struct OpenJob {
    pub guard: CompactionCostJobGuard,
    /// It has said what it wrote.
    pub generated: bool,
}

/// The ledger together with its open jobs.
pub struct CostHistory {
    pub counts: CompactionCounts,
    pub open: Seq<OpenJob>,
}

/// No counter is below its former value, as it would be after wrapping round.
pub open spec fn nothing_wrapped(before: CompactionCounts, after: CompactionCounts) -> bool {
    &&& before.jobs_planned <= after.jobs_planned
    &&& before.jobs_published <= after.jobs_published
    &&& before.jobs_invalidated <= after.jobs_invalidated
    &&& before.jobs_invalidated_topology <= after.jobs_invalidated_topology
    &&& before.jobs_invalidated_other <= after.jobs_invalidated_other
    &&& before.jobs_failed <= after.jobs_failed
    &&& before.manifest_publications <= after.manifest_publications
    &&& before.total_logical_input_rows <= after.total_logical_input_rows
    &&& before.total_logical_input_bytes <= after.total_logical_input_bytes
    &&& before.total_generated_output_rows <= after.total_generated_output_rows
    &&& before.total_generated_output_bytes <= after.total_generated_output_bytes
    &&& before.total_published_input_rows <= after.total_published_input_rows
    &&& before.total_published_input_bytes <= after.total_published_input_bytes
    &&& before.total_published_output_rows <= after.total_published_output_rows
    &&& before.total_published_output_bytes <= after.total_published_output_bytes
    &&& before.total_wasted_input_rows <= after.total_wasted_input_rows
    &&& before.total_wasted_input_bytes <= after.total_wasted_input_bytes
    &&& before.total_wasted_output_rows <= after.total_wasted_output_rows
    &&& before.total_wasted_output_bytes <= after.total_wasted_output_bytes
    &&& before.posting_outputs_generated <= after.posting_outputs_generated
    &&& before.posting_outputs_published <= after.posting_outputs_published
    &&& before.posting_outputs_wasted <= after.posting_outputs_wasted
}

/// Whether an event is one of a job that is open. A job says once at most
/// what it wrote.
pub open spec fn can_happen(open: Seq<OpenJob>, event: CostEvent) -> bool {
    match event {
        CostEvent::Generated { job, .. } => 0 <= job < open.len() && !open[job].generated,
        CostEvent::Published { job, .. } => 0 <= job < open.len(),
        CostEvent::Invalidated { job, .. } => 0 <= job < open.len(),
        CostEvent::Failed { job } => 0 <= job < open.len(),
        _ => true,
    }
}

/// The ledger after an event.
pub open spec fn history_after(history: CostHistory, event: CostEvent) -> CostHistory {
    let counts = history.counts;
    let open = history.open;
    match event {
        CostEvent::Selected { reason } => CostHistory {
            counts: counts_after_selected(counts, reason),
            open,
        },
        CostEvent::Deferred { reason } => CostHistory {
            counts: counts_after_deferred(counts, reason),
            open,
        },
        CostEvent::Started { input_rows, input_bytes } => CostHistory {
            counts: counts_after_start(counts, input_rows, input_bytes),
            open: open.push(
                OpenJob {
                    guard: CompactionCostJobGuard {
                        input_rows,
                        input_bytes,
                        output_rows: 0,
                        output_bytes: 0,
                        posting_outputs: 0,
                    },
                    generated: false,
                },
            ),
        },
        CostEvent::Generated { job, rows, bytes, posting_outputs } => CostHistory {
            counts: counts_after_generated(counts, rows, bytes, posting_outputs),
            open: open.update(
                job,
                OpenJob {
                    guard: CompactionCostJobGuard {
                        output_rows: rows,
                        output_bytes: bytes,
                        posting_outputs,
                        ..open[job].guard
                    },
                    generated: true,
                },
            ),
        },
        CostEvent::Published { job, nanos } => CostHistory {
            counts: counts_after_published(counts, open[job].guard, nanos),
            open: open.remove(job),
        },
        CostEvent::Invalidated { job, reason } => CostHistory {
            counts: counts_after_invalidated(counts, open[job].guard, reason),
            open: open.remove(job),
        },
        CostEvent::Failed { job } => CostHistory {
            counts: counts_after_failed(counts),
            open: open.remove(job),
        },
    }
}

/// The ledger after a history that began with an empty one; nothing where an
/// event could not happen or a counter wrapped round.
pub open spec fn history_of(events: Seq<CostEvent>) -> Option<CostHistory>
    decreases events.len(),
{
    if events.len() == 0 {
        Some(CostHistory { counts: zero_counts(), open: Seq::empty() })
    } else {
        match history_of(events.drop_last()) {
            None => None,
            Some(before) => {
                let after = history_after(before, events.last());
                if can_happen(before.open, events.last()) && nothing_wrapped(
                    before.counts,
                    after.counts,
                ) {
                    Some(after)
                } else {
                    None
                }
            },
        }
    }
}

/// What the open jobs have of something.
pub open spec fn open_total(open: Seq<OpenJob>, pick: spec_fn(CompactionCostJobGuard) -> u64) -> int
    decreases open.len(),
{
    if open.len() == 0 {
        0
    } else {
        open_total(open.drop_last(), pick) + pick(open.last().guard)
    }
}

proof fn lemma_open_total(
    open: Seq<OpenJob>,
    pick: spec_fn(CompactionCostJobGuard) -> u64,
    job: int,
    next: OpenJob,
)
    requires
        0 <= job < open.len(),
    ensures
        open_total(open.update(job, next), pick) == open_total(open, pick) - pick(open[job].guard)
            + pick(next.guard),
        open_total(open.remove(job), pick) == open_total(open, pick) - pick(open[job].guard),
        open_total(open, pick) >= pick(open[job].guard),
    decreases open.len(),
{
    let shorter = open.drop_last();
    lemma_open_total_is_natural(shorter, pick);
    if job == open.len() - 1 {
        assert(open.update(job, next).drop_last() =~= shorter);
        assert(open.remove(job) =~= shorter);
    } else {
        lemma_open_total(shorter, pick, job, next);
        assert(open.update(job, next).drop_last() =~= shorter.update(job, next));
        assert(open.remove(job).drop_last() =~= shorter.remove(job));
        assert(open.remove(job).last() == open.last());
    }
}

proof fn lemma_open_total_is_natural(
    open: Seq<OpenJob>,
    pick: spec_fn(CompactionCostJobGuard) -> u64,
)
    ensures
        open_total(open, pick) >= 0,
    decreases open.len(),
{
    if open.len() > 0 {
        lemma_open_total_is_natural(open.drop_last(), pick);
    }
}

pub open spec fn input_rows_of() -> spec_fn(CompactionCostJobGuard) -> u64 {
    |job: CompactionCostJobGuard| job.input_rows
}

pub open spec fn input_bytes_of() -> spec_fn(CompactionCostJobGuard) -> u64 {
    |job: CompactionCostJobGuard| job.input_bytes
}

pub open spec fn output_rows_of() -> spec_fn(CompactionCostJobGuard) -> u64 {
    |job: CompactionCostJobGuard| job.output_rows
}

pub open spec fn output_bytes_of() -> spec_fn(CompactionCostJobGuard) -> u64 {
    |job: CompactionCostJobGuard| job.output_bytes
}

pub open spec fn posting_outputs_of() -> spec_fn(CompactionCostJobGuard) -> u64 {
    |job: CompactionCostJobGuard| job.posting_outputs
}

/// The books balance: each job that began is open or has one end, each
/// invalidation one class, each publication one manifest; and what was
/// published or thrown away, with what is open, is no more than there was.
pub open spec fn balances(history: CostHistory) -> bool {
    let c = history.counts;
    let open = history.open;
    &&& c.jobs_planned == c.jobs_published + c.jobs_invalidated + c.jobs_failed + open.len()
    &&& c.jobs_invalidated == c.jobs_invalidated_topology + c.jobs_invalidated_other
    &&& c.manifest_publications == c.jobs_published
    &&& c.total_published_input_rows + c.total_wasted_input_rows + open_total(
        open,
        input_rows_of(),
    ) <= c.total_logical_input_rows
    &&& c.total_published_input_bytes + c.total_wasted_input_bytes + open_total(
        open,
        input_bytes_of(),
    ) <= c.total_logical_input_bytes
    &&& c.total_published_output_rows + c.total_wasted_output_rows + open_total(
        open,
        output_rows_of(),
    ) <= c.total_generated_output_rows
    &&& c.total_published_output_bytes + c.total_wasted_output_bytes + open_total(
        open,
        output_bytes_of(),
    ) <= c.total_generated_output_bytes
    &&& c.posting_outputs_published + c.posting_outputs_wasted + open_total(
        open,
        posting_outputs_of(),
    ) <= c.posting_outputs_generated
    &&& forall|i: int|
        0 <= i < open.len() && !(#[trigger] open[i]).generated ==> open[i].guard.output_rows == 0
            && open[i].guard.output_bytes == 0 && open[i].guard.posting_outputs == 0
}

/// Whatever happens, the books balance.
pub proof fn law_books_balance(events: Seq<CostEvent>)
    requires
        history_of(events) is Some,
    ensures
        balances(history_of(events)->0),
    decreases events.len(),
{
    if events.len() > 0 {
        let before = history_of(events.drop_last())->0;
        law_books_balance(events.drop_last());
        let after = history_of(events)->0;
        let open = before.open;
        match events.last() {
            CostEvent::Started { .. } => {
                assert(after.open.drop_last() =~= open);
            },
            CostEvent::Generated { job, .. } => {
                let next = after.open[job];
                lemma_open_total(open, input_rows_of(), job, next);
                lemma_open_total(open, input_bytes_of(), job, next);
                lemma_open_total(open, output_rows_of(), job, next);
                lemma_open_total(open, output_bytes_of(), job, next);
                lemma_open_total(open, posting_outputs_of(), job, next);
            },
            CostEvent::Published { job, .. } | CostEvent::Invalidated { job, .. }
            | CostEvent::Failed { job } => {
                lemma_open_total(open, input_rows_of(), job, open[job]);
                lemma_open_total(open, input_bytes_of(), job, open[job]);
                lemma_open_total(open, output_rows_of(), job, open[job]);
                lemma_open_total(open, output_bytes_of(), job, open[job]);
                lemma_open_total(open, posting_outputs_of(), job, open[job]);
                assert forall|i: int|
                    0 <= i < after.open.len() && !(
                    #[trigger] after.open[i]).generated implies after.open[i].guard.output_rows == 0
                    && after.open[i].guard.output_bytes == 0
                    && after.open[i].guard.posting_outputs == 0 by {
                    let source = if i < job {
                        i
                    } else {
                        i + 1
                    };
                    assert(after.open[i] == open[source]);
                }
            },
            _ => {},
        }
    }
}

/// Once no job is open, every job that began has one end, and what was
/// published and thrown away stays within what was read and written.
pub proof fn law_closed_books_add_up(events: Seq<CostEvent>)
    requires
        history_of(events) is Some,
        history_of(events)->0.open.len() == 0,
    ensures
        ({
            let c = history_of(events)->0.counts;
            &&& c.jobs_planned == c.jobs_published + c.jobs_invalidated + c.jobs_failed
            &&& c.jobs_invalidated == c.jobs_invalidated_topology + c.jobs_invalidated_other
            &&& c.manifest_publications == c.jobs_published
            &&& c.total_published_input_rows + c.total_wasted_input_rows
                <= c.total_logical_input_rows
            &&& c.total_published_input_bytes + c.total_wasted_input_bytes
                <= c.total_logical_input_bytes
            &&& c.total_published_output_rows + c.total_wasted_output_rows
                <= c.total_generated_output_rows
            &&& c.total_published_output_bytes + c.total_wasted_output_bytes
                <= c.total_generated_output_bytes
            &&& c.posting_outputs_published + c.posting_outputs_wasted
                <= c.posting_outputs_generated
        }),
{
    law_books_balance(events);
}

} // verus!
