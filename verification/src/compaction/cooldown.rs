//! Suppression of compaction inputs that failed recently.
use crate::num::sat64;
use crate::text::clip;
use crate::text::clipped;
use vstd::prelude::*;
use vstd::string::StringExecFns;

verus! {

/// Entries the cooldown keeps at most.
pub const MAX_COMPACTION_RETRY_ENTRIES: usize = 64;

/// Characters of a reason that are kept.
pub const MAX_REASON_CHARS: usize = 96;

/// One input set that is not retried yet.
#[derive(Debug)]
pub struct CompactionRetryEntry {
    pub signature: u64,
    /// Monotonic time, in milliseconds, until which the entry holds.
    pub until_millis: u64,
    pub until_unix_millis: u64,
    pub reason: String,
}

/// Recently failed compaction inputs, oldest first.
#[derive(Debug)]
pub struct CompactionRetryCooldown {
    pub active: Vec<CompactionRetryEntry>,
    pub suppressed: u64,
}

/// What survives dropping expired entries and those with a signature.
pub open spec fn kept(
    entries: Seq<CompactionRetryEntry>,
    now_millis: Option<u64>,
    dropped: Option<u64>,
) -> Seq<CompactionRetryEntry> {
    entries.filter(|entry: CompactionRetryEntry| keeps(entry, now_millis, dropped))
}

pub open spec fn keeps(
    entry: CompactionRetryEntry,
    now_millis: Option<u64>,
    dropped: Option<u64>,
) -> bool {
    &&& now_millis matches Some(now) ==> entry.until_millis > now
    &&& dropped matches Some(signature) ==> entry.signature != signature
}

pub open spec fn has_signature(entries: Seq<CompactionRetryEntry>, signature: u64) -> bool {
    exists|i: int| 0 <= i < entries.len() && (#[trigger] entries[i]).signature == signature
}

proof fn lemma_kept_shorter(
    entries: Seq<CompactionRetryEntry>,
    now_millis: Option<u64>,
    dropped: Option<u64>,
)
    ensures
        kept(entries, now_millis, dropped).len() <= entries.len(),
    decreases entries.len(),
{
    reveal(Seq::filter);
    if entries.len() > 0 {
        lemma_kept_shorter(entries.drop_last(), now_millis, dropped);
    }
}

fn retain(
    entries: &mut Vec<CompactionRetryEntry>,
    now_millis: Option<u64>,
    dropped: Option<u64>,
)
    ensures
        final(entries)@ == kept(old(entries)@, now_millis, dropped),
{
    let ghost all = entries@;
    let ghost mut seen: int = 0;
    let mut i: usize = 0;
    proof {
        reveal(Seq::filter);
        assert(all.skip(0) =~= all);
    }
    while i < entries.len()
        invariant
            0 <= seen <= all.len(),
            i == kept(all.take(seen), now_millis, dropped).len(),
            entries@ == kept(all.take(seen), now_millis, dropped) + all.skip(seen),
        decreases all.len() - seen,
    {
        let keep_time: bool = match now_millis {
            Some(now) => entries[i].until_millis > now,
            None => true,
        };
        let keep_signature: bool = match dropped {
            Some(signature) => entries[i].signature != signature,
            None => true,
        };
        let ghost before = entries@;
        proof {
            reveal(Seq::filter);
            assert(seen < all.len());
            assert(all.take(seen + 1).drop_last() =~= all.take(seen));
            assert(all.skip(seen)[0] == all[seen]);
        }
        if keep_time && keep_signature {
            i = i + 1;
            proof {
                assert(entries@ =~= kept(all.take(seen + 1), now_millis, dropped) + all.skip(
                    seen + 1,
                ));
            }
        } else {
            let _ = entries.remove(i);
            proof {
                assert(entries@ =~= kept(all.take(seen + 1), now_millis, dropped) + all.skip(
                    seen + 1,
                ));
            }
        }
        proof {
            seen = seen + 1;
        }
    }
    proof {
        assert(all.skip(seen).len() == 0);
        assert(all.take(seen) =~= all);
        assert(entries@ =~= kept(all, now_millis, dropped));
    }
}

/// Entries after a failed input set was noted. Without a cooldown the set is
/// forgotten; otherwise it comes last, expired entries go, and the oldest one
/// too where there is no room.
pub open spec fn is_recorded(
    before: Seq<CompactionRetryEntry>,
    after: Seq<CompactionRetryEntry>,
    signature: u64,
    cooldown_ms: u64,
    reason: Seq<char>,
    now_millis: u64,
    now_unix_millis: u64,
) -> bool {
    if cooldown_ms == 0 {
        after == kept(before, None, Some(signature))
    } else {
        let live = kept(before, Some(now_millis), Some(signature));
        let room = if live.len() == MAX_COMPACTION_RETRY_ENTRIES {
            live.drop_first()
        } else {
            live
        };
        &&& after.len() == room.len() + 1
        &&& after.drop_last() == room
        &&& after.last().signature == signature
        &&& after.last().until_millis == sat64(now_millis + cooldown_ms)
        &&& after.last().until_unix_millis == sat64(now_unix_millis + cooldown_ms)
        &&& after.last().reason@ == clipped(reason, MAX_REASON_CHARS as nat)
    }
}

/// What an observer sees of the cooldown.
#[derive(Debug)]
pub struct CooldownSnapshot {
    pub active: bool,
    pub until_unix_millis: u64,
    pub suppressed: u64,
    pub last_reason: String,
}

impl CompactionRetryCooldown {
    /// Bounded memory of failures.
    pub open spec fn wf(self) -> bool {
        self.active@.len() <= MAX_COMPACTION_RETRY_ENTRIES
    }

    pub fn new() -> (r: Self)
        ensures
            r.wf(),
            r.active@.len() == 0,
            r.suppressed == 0,
    {
        CompactionRetryCooldown { active: Vec::new(), suppressed: 0 }
    }

    /// Whether an input set failed recently; such a set is counted.
    pub fn should_defer(&mut self, signature: u64, now_millis: u64) -> (r: bool)
        requires
            old(self).wf(),
        ensures
            final(self).wf(),
            final(self).active@ == kept(old(self).active@, Some(now_millis), None),
            r == has_signature(final(self).active@, signature),
            final(self).suppressed == if r {
                old(self).suppressed.wrapping_add(1)
            } else {
                old(self).suppressed
            },
    {
        proof {
            lemma_kept_shorter(self.active@, Some(now_millis), None);
        }
        retain(&mut self.active, Some(now_millis), None);
        let mut i: usize = 0;
        while i < self.active.len()
            invariant
                0 <= i <= self.active@.len(),
                self.active@ == kept(old(self).active@, Some(now_millis), None),
                self.suppressed == old(self).suppressed,
                self.wf(),
                forall|j: int|
                    0 <= j < i ==> (#[trigger] self.active@[j]).signature != signature,
            decreases self.active@.len() - i,
        {
            if self.active[i].signature == signature {
                self.suppressed = self.suppressed.wrapping_add(1);
                assert(self.active@[i as int].signature == signature);
                return true;
            }
            i = i + 1;
        }
        false
    }

    /// Remembers a failed input set. Without a cooldown the set is forgotten
    /// instead. The oldest entry leaves when the memory is full.
    pub fn record(
        &mut self,
        signature: u64,
        cooldown_ms: u64,
        reason: &str,
        now_millis: u64,
        now_unix_millis: u64,
    )
        requires
            old(self).wf(),
        ensures
            final(self).wf(),
            final(self).suppressed == old(self).suppressed,
            is_recorded(
                old(self).active@,
                final(self).active@,
                signature,
                cooldown_ms,
                reason@,
                now_millis,
                now_unix_millis,
            ),
    {
        proof {
            lemma_kept_shorter(self.active@, None, Some(signature));
            lemma_kept_shorter(self.active@, Some(now_millis), Some(signature));
        }
        if cooldown_ms == 0 {
            retain(&mut self.active, None, Some(signature));
            return;
        }
        retain(&mut self.active, Some(now_millis), Some(signature));
        let ghost live = self.active@;
        if self.active.len() == MAX_COMPACTION_RETRY_ENTRIES {
            let _ = self.active.remove(0);
            assert(self.active@ =~= live.drop_first());
        }
        let ghost room = self.active@;
        self.active.push(
            CompactionRetryEntry {
                signature,
                until_millis: now_millis.saturating_add(cooldown_ms),
                until_unix_millis: now_unix_millis.saturating_add(cooldown_ms),
                reason: clip(reason, MAX_REASON_CHARS),
            },
        );
        assert(self.active@.drop_last() =~= room);
    }

    /// Forgets an input set.
    pub fn clear(&mut self, signature: u64)
        requires
            old(self).wf(),
        ensures
            final(self).wf(),
            final(self).active@ == kept(old(self).active@, None, Some(signature)),
            final(self).suppressed == old(self).suppressed,
    {
        proof {
            lemma_kept_shorter(self.active@, None, Some(signature));
        }
        retain(&mut self.active, None, Some(signature));
    }

    /// Drops expired entries and shows the latest of the others.
    pub fn snapshot(&mut self, now_millis: u64) -> (r: CooldownSnapshot)
        requires
            old(self).wf(),
        ensures
            final(self).wf(),
            final(self).active@ == kept(old(self).active@, Some(now_millis), None),
            final(self).suppressed == old(self).suppressed,
            r.suppressed == old(self).suppressed,
            r.active == (final(self).active@.len() > 0),
            r.active ==> r.until_unix_millis == final(self).active@.last().until_unix_millis
                && r.last_reason@ == final(self).active@.last().reason@,
            !r.active ==> r.until_unix_millis == 0 && r.last_reason@.len() == 0,
    {
        proof {
            lemma_kept_shorter(self.active@, Some(now_millis), None);
        }
        retain(&mut self.active, Some(now_millis), None);
        let n: usize = self.active.len();
        if n == 0 {
            return CooldownSnapshot {
                active: false,
                until_unix_millis: 0,
                suppressed: self.suppressed,
                last_reason: String::new(),
            };
        }
        CooldownSnapshot {
            active: true,
            until_unix_millis: self.active[n - 1].until_unix_millis,
            suppressed: self.suppressed,
            last_reason: self.active[n - 1].reason.clone(),
        }
    }
}

proof fn lemma_kept_member(
    entries: Seq<CompactionRetryEntry>,
    now_millis: Option<u64>,
    dropped: Option<u64>,
    entry: CompactionRetryEntry,
)
    ensures
        kept(entries, now_millis, dropped).contains(entry) <==> entries.contains(entry) && keeps(
            entry,
            now_millis,
            dropped,
        ),
    decreases entries.len(),
{
    reveal(Seq::filter);
    if entries.len() > 0 {
        let shorter = entries.drop_last();
        lemma_kept_member(shorter, now_millis, dropped, entry);
        let base = kept(shorter, now_millis, dropped);
        if entries.contains(entry) && !shorter.contains(entry) {
            let i = choose|i: int| 0 <= i < entries.len() && entries[i] == entry;
            if i < shorter.len() {
                assert(shorter[i] == entry);
            }
            assert(entries.last() == entry);
        }
        if shorter.contains(entry) {
            let i = choose|i: int| 0 <= i < shorter.len() && shorter[i] == entry;
            assert(entries[i] == entry);
        }
        assert(entries[entries.len() - 1] == entries.last());
        if keeps(entries.last(), now_millis, dropped) {
            let whole = base.push(entries.last());
            assert(kept(entries, now_millis, dropped) == whole);
            if base.contains(entry) {
                let k = choose|k: int| 0 <= k < base.len() && base[k] == entry;
                assert(whole[k] == entry);
            }
            if whole.contains(entry) {
                let k = choose|k: int| 0 <= k < whole.len() && whole[k] == entry;
                if k < base.len() {
                    assert(base[k] == entry);
                }
            }
            assert(whole[base.len() as int] == entries.last());
        }
    }
}

/// A recorded input set is deferred for as long as its cooldown lasts.
pub proof fn law_recorded_inputs_are_deferred(
    entries: Seq<CompactionRetryEntry>,
    now_millis: u64,
)
    requires
        entries.len() > 0,
        now_millis < entries.last().until_millis,
    ensures
        has_signature(kept(entries, Some(now_millis), None), entries.last().signature),
{
    assert(entries[entries.len() - 1] == entries.last());
    lemma_kept_member(entries, Some(now_millis), None, entries.last());
    let live = kept(entries, Some(now_millis), None);
    let i = choose|i: int| 0 <= i < live.len() && live[i] == entries.last();
    assert(live[i].signature == entries.last().signature);
}

/// A cleared input set is not deferred until it fails again.
pub proof fn law_cleared_inputs_are_not_deferred(
    entries: Seq<CompactionRetryEntry>,
    signature: u64,
)
    ensures
        !has_signature(kept(entries, None, Some(signature)), signature),
{
    let live = kept(entries, None, Some(signature));
    if has_signature(live, signature) {
        let i = choose|i: int| 0 <= i < live.len() && (#[trigger] live[i]).signature == signature;
        lemma_kept_member(entries, None, Some(signature), live[i]);
        assert(live.contains(live[i]));
    }
}

/// Retry bookkeeping of one running job.
#[derive(Debug)]
pub struct CompactionRetryJob {
    pub signature: u64,
    pub cooldown_ms: u64,
    pub reason: String,
}

impl CompactionRetryJob {
    pub fn new(signature: u64, cooldown_ms: u64) -> (job: Self)
        ensures
            job.signature == signature,
            job.cooldown_ms == cooldown_ms,
            job.reason@ == "failed_unclassified"@,
    {
        CompactionRetryJob {
            signature,
            cooldown_ms,
            reason: String::from_str("failed_unclassified"),
        }
    }

    pub fn set_reason(&mut self, reason: &str)
        ensures
            final(self).signature == old(self).signature,
            final(self).cooldown_ms == old(self).cooldown_ms,
            final(self).reason@ == clipped(reason@, MAX_REASON_CHARS as nat),
    {
        self.reason = clip(reason, MAX_REASON_CHARS);
    }

    /// The job published: its inputs may be tried again at once.
    pub fn success(self, cooldown: &mut CompactionRetryCooldown)
        requires
            old(cooldown).wf(),
        ensures
            final(cooldown).wf(),
            final(cooldown).active@ == kept(old(cooldown).active@, None, Some(self.signature)),
            final(cooldown).suppressed == old(cooldown).suppressed,
    {
        cooldown.clear(self.signature);
    }

    /// The job ended without publishing.
    pub fn abandon(
        self,
        cooldown: &mut CompactionRetryCooldown,
        now_millis: u64,
        now_unix_millis: u64,
    )
        requires
            old(cooldown).wf(),
        ensures
            final(cooldown).wf(),
            final(cooldown).suppressed == old(cooldown).suppressed,
            is_recorded(
                old(cooldown).active@,
                final(cooldown).active@,
                self.signature,
                self.cooldown_ms,
                self.reason@,
                now_millis,
                now_unix_millis,
            ),
    {
        cooldown.record(
            self.signature,
            self.cooldown_ms,
            self.reason.as_str(),
            now_millis,
            now_unix_millis,
        );
    }
}

} // verus!
