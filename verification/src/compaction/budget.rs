//! Disk, time and I/O budgets of compaction jobs.
use crate::compaction::abort::abort_message;
use crate::compaction::abort::compaction_abort;
use crate::error::refusal;
use crate::error::Error;
use crate::error::ErrorView;
use crate::num::max_64;
use crate::num::min_64;
use crate::num::monus;
use crate::num::sat64;
use crate::num::spec_max;
use crate::num::spec_min;
use crate::text::decimal;
use crate::text::decimal_digits;
use vstd::prelude::*;
use vstd::string::StringExecFns;

verus! {

/// Result of asking the filesystem for free bytes. `None` means that the
/// platform cannot tell.
pub type AvailableBytes = Result<Option<u64>, Error>;

/// Output bytes that running jobs may still write, over all jobs.
#[derive(Debug, Clone, Copy, PartialEq, Eq, Structural)]
pub struct CompactionDiskReservationPool {
    pub remaining_output_bytes: u64,
}

/// What one job has reserved and not yet written.
#[derive(Debug, PartialEq, Eq, Structural)]
pub struct CompactionDiskReservation {
    pub remaining: u64,
}

pub open spec fn disk_abort(detail: Seq<char>) -> ErrorView {
    ErrorView::Internal(abort_message("disk_reserve_exhausted"@, detail))
}

pub open spec fn shortage(available: u64, required: int) -> ErrorView {
    disk_abort(
        "available "@ + decimal_digits(available as nat) + " bytes, required "@ + decimal_digits(
            required as nat,
        ) + " bytes"@,
    )
}

fn shortage_error(available: u64, required: u64) -> (e: Error)
    ensures
        e@ == shortage(available, required as int),
{
    let detail: String = String::from_str("available ").concat(decimal(available).as_str()).concat(
        " bytes, required ",
    ).concat(decimal(required).as_str()).concat(" bytes");
    compaction_abort("disk_reserve_exhausted", detail.as_str())
}

/// Refusal of `required` bytes by a filesystem probe, if it refuses.
pub open spec fn probe_refusal(available: AvailableBytes, required: int) -> Option<ErrorView> {
    match available {
        Err(e) => Some(e@),
        Ok(None) => None,
        Ok(Some(bytes)) => if bytes < required {
            Some(shortage(bytes, required))
        } else {
            None
        },
    }
}

fn check_probe(available: AvailableBytes, required: u64) -> (r: Result<(), Error>)
    ensures
        match r {
            Ok(()) => probe_refusal(available, required as int) is None,
            Err(e) => probe_refusal(available, required as int) == Some(e@),
        },
{
    match available {
        Err(error) => Err(error),
        Ok(None) => Ok(()),
        Ok(Some(bytes)) => if bytes < required {
            Err(shortage_error(bytes, required))
        } else {
            Ok(())
        },
    }
}

/// Why a reservation is refused, if it is.
pub open spec fn reserve_refusal(
    pool: CompactionDiskReservationPool,
    max_output_bytes: u64,
    disk_reserve_bytes: u64,
    available: AvailableBytes,
) -> Option<ErrorView> {
    let total = pool.remaining_output_bytes + spec_max(max_output_bytes as int, 1);
    if total > u64::MAX {
        Some(disk_abort("aggregate compaction output reservation overflow"@))
    } else if disk_reserve_bytes + total > u64::MAX {
        Some(disk_abort("aggregate compaction disk reserve overflow"@))
    } else {
        probe_refusal(available, disk_reserve_bytes + total)
    }
}

impl CompactionDiskReservationPool {
    pub fn new() -> (pool: Self)
        ensures
            pool.remaining_output_bytes == 0,
    {
        CompactionDiskReservationPool { remaining_output_bytes: 0 }
    }

    /// Reserves the output of one job beside what other jobs reserved.
    pub fn reserve(
        &mut self,
        max_output_bytes: u64,
        disk_reserve_bytes: u64,
        available: AvailableBytes,
    ) -> (r: Result<CompactionDiskReservation, Error>)
        ensures
            match r {
                Ok(reservation) => {
                    &&& reserve_refusal(*old(self), max_output_bytes, disk_reserve_bytes, available)
                        is None
                    &&& reservation.remaining == spec_max(max_output_bytes as int, 1)
                    &&& final(self).remaining_output_bytes == old(self).remaining_output_bytes
                        + reservation.remaining
                },
                Err(e) => {
                    &&& reserve_refusal(*old(self), max_output_bytes, disk_reserve_bytes, available)
                        == Some(e@)
                    &&& *final(self) == *old(self)
                },
            },
    {
        let requested: u64 = max_64(max_output_bytes, 1);
        let total: u64 = match self.remaining_output_bytes.checked_add(requested) {
            Some(total) => total,
            None => {
                return Err(
                    compaction_abort(
                        "disk_reserve_exhausted",
                        "aggregate compaction output reservation overflow",
                    ),
                );
            },
        };
        let required: u64 = match disk_reserve_bytes.checked_add(total) {
            Some(required) => required,
            None => {
                return Err(
                    compaction_abort(
                        "disk_reserve_exhausted",
                        "aggregate compaction disk reserve overflow",
                    ),
                );
            },
        };
        match check_probe(available, required) {
            Ok(()) => {},
            Err(error) => {
                return Err(error);
            },
        }
        self.remaining_output_bytes = total;
        Ok(CompactionDiskReservation { remaining: requested })
    }
}

impl CompactionDiskReservation {
    pub open spec fn headroom_refusal(
        pool: CompactionDiskReservationPool,
        disk_reserve_bytes: u64,
        available: AvailableBytes,
    ) -> Option<ErrorView> {
        let required = disk_reserve_bytes + pool.remaining_output_bytes;
        if required > u64::MAX {
            Some(disk_abort("aggregate compaction disk reserve overflow"@))
        } else {
            probe_refusal(available, required)
        }
    }

    /// Whether the filesystem still holds what all jobs may write, and the
    /// configured reserve.
    pub fn ensure_headroom(
        &self,
        pool: &CompactionDiskReservationPool,
        disk_reserve_bytes: u64,
        available: AvailableBytes,
    ) -> (r: Result<(), Error>)
        ensures
            match r {
                Ok(()) => Self::headroom_refusal(*pool, disk_reserve_bytes, available) is None,
                Err(e) => Self::headroom_refusal(*pool, disk_reserve_bytes, available) == Some(e@),
            },
    {
        match disk_reserve_bytes.checked_add(pool.remaining_output_bytes) {
            Some(required) => check_probe(available, required),
            None => Err(
                compaction_abort(
                    "disk_reserve_exhausted",
                    "aggregate compaction disk reserve overflow",
                ),
            ),
        }
    }

    /// Turns reserved bytes into written ones, as far as the reservation goes.
    pub fn account_output(&mut self, pool: &mut CompactionDiskReservationPool, bytes: u64)
        ensures
            final(self).remaining == monus(old(self).remaining as int, bytes as int),
            final(pool).remaining_output_bytes == monus(
                old(pool).remaining_output_bytes as int,
                spec_min(bytes as int, old(self).remaining as int),
            ),
    {
        let consumed: u64 = min_64(bytes, self.remaining);
        self.remaining = self.remaining.saturating_sub(consumed);
        pool.remaining_output_bytes = pool.remaining_output_bytes.saturating_sub(consumed);
    }

    /// Gives the unwritten rest back.
    pub fn release(self, pool: &mut CompactionDiskReservationPool)
        ensures
            final(pool).remaining_output_bytes == monus(
                old(pool).remaining_output_bytes as int,
                self.remaining as int,
            ),
    {
        pool.remaining_output_bytes = pool.remaining_output_bytes.saturating_sub(self.remaining);
    }
}

/// A job leaves the pool as it found it: what it reserved is written or given
/// back, whatever it wrote.
pub proof fn law_reservation_is_conserved(before: u64, reserved: u64, written: u64)
    requires
        before + reserved <= u64::MAX,
    ensures
        monus(
            monus(before + reserved, spec_min(written as int, reserved as int)),
            monus(reserved as int, written as int),
        ) == before,
{
}

/// Budget that one running job spends.
#[derive(Debug)]
pub struct CompactionExecutionBudget {
    pub time_budget_ms: Option<u64>,
    pub io_bytes_per_sec: u64,
    pub max_output_bytes: u64,
    pub disk_reserve_bytes: u64,
    pub read_bytes: u64,
    pub output_bytes: u64,
    pub disk_reservation: Option<CompactionDiskReservation>,
}

pub open spec fn time_refusal(time_budget_ms: Option<u64>, elapsed_nanos: u64) -> Option<
    ErrorView,
> {
    match time_budget_ms {
        Some(ms) if elapsed_nanos >= ms * 1_000_000 => Some(
            ErrorView::Internal(
                abort_message(
                    "time_budget_exceeded"@,
                    "elapsed "@ + decimal_digits((elapsed_nanos / 1_000_000) as nat) + " ms"@,
                ),
            ),
        ),
        _ => None,
    }
}

/// Elapsed time at which the I/O done so far is within the rate.
pub open spec fn paced_nanos(accounted_bytes: int, io_bytes_per_sec: u64) -> int {
    spec_min((accounted_bytes * 1_000_000_000) / io_bytes_per_sec as int, u64::MAX as int)
}

impl CompactionExecutionBudget {
    pub fn new(
        time_budget_ms: u64,
        io_bytes_per_sec: u64,
        max_output_bytes: u64,
        disk_reserve_bytes: u64,
    ) -> (budget: Self)
        ensures
            budget.time_budget_ms == if time_budget_ms > 0 {
                Some(time_budget_ms)
            } else {
                None
            },
            budget.io_bytes_per_sec == io_bytes_per_sec,
            budget.max_output_bytes == spec_max(max_output_bytes as int, 1),
            budget.disk_reserve_bytes == disk_reserve_bytes,
            budget.read_bytes == 0,
            budget.output_bytes == 0,
            budget.disk_reservation is None,
    {
        CompactionExecutionBudget {
            time_budget_ms: if time_budget_ms > 0 {
                Some(time_budget_ms)
            } else {
                None
            },
            io_bytes_per_sec,
            max_output_bytes: max_64(max_output_bytes, 1),
            disk_reserve_bytes,
            read_bytes: 0,
            output_bytes: 0,
            disk_reservation: None,
        }
    }

    pub fn attach_disk_reservation(&mut self, reservation: CompactionDiskReservation)
        ensures
            *final(self) == (CompactionExecutionBudget {
                disk_reservation: Some(reservation),
                ..*old(self)
            }),
    {
        self.disk_reservation = Some(reservation);
    }

    pub fn ensure_time(&self, elapsed_nanos: u64) -> (r: Result<(), Error>)
        ensures
            match r {
                Ok(()) => time_refusal(self.time_budget_ms, elapsed_nanos) is None,
                Err(e) => time_refusal(self.time_budget_ms, elapsed_nanos) == Some(e@),
            },
    {
        match self.time_budget_ms {
            Some(ms) => {
                assert(ms * 1_000_000 <= 0xffff_ffff_ffff_ffff * 1_000_000);
                if elapsed_nanos as u128 >= ms as u128 * 1_000_000 {
                    let detail: String = String::from_str("elapsed ").concat(
                        decimal(elapsed_nanos / 1_000_000).as_str(),
                    ).concat(" ms");
                    return Err(compaction_abort("time_budget_exceeded", detail.as_str()));
                }
                Ok(())
            },
            None => Ok(()),
        }
    }

    /// Bytes that count against the rate.
    pub open spec fn accounted_bytes(self) -> int {
        sat64(self.read_bytes + self.output_bytes)
    }

    /// How long to sleep before looking again, at most fifty milliseconds;
    /// zero when the I/O done so far is within the rate.
    pub open spec fn pause(self, elapsed_nanos: u64) -> int {
        if self.io_bytes_per_sec == 0 {
            0
        } else {
            spec_min(
                monus(
                    paced_nanos(self.accounted_bytes(), self.io_bytes_per_sec),
                    elapsed_nanos as int,
                ),
                50_000_000,
            )
        }
    }

    pub fn throttle_nanos(&self, elapsed_nanos: u64) -> (wait: u64)
        ensures
            wait == self.pause(elapsed_nanos),
    {
        if self.io_bytes_per_sec == 0 {
            return 0;
        }
        let accounted: u64 = self.read_bytes.saturating_add(self.output_bytes);
        assert(accounted * 1_000_000_000 <= 0xffff_ffff_ffff_ffff * 1_000_000_000);
        let paced: u128 = accounted as u128 * 1_000_000_000 / self.io_bytes_per_sec as u128;
        let desired: u64 = if paced < u64::MAX as u128 {
            paced as u64
        } else {
            u64::MAX
        };
        min_64(desired.saturating_sub(elapsed_nanos), 50_000_000)
    }

    /// Why a job that paces itself may not go on: it ran out of time, or its
    /// inputs, looked at with `live`, are no longer current. A job that has
    /// paused long enough is not asked about its inputs again.
    pub open spec fn pacing_refusal(
        self,
        first: bool,
        elapsed_nanos: u64,
        live: Option<ErrorView>,
    ) -> Option<ErrorView> {
        match time_refusal(self.time_budget_ms, elapsed_nanos) {
            Some(e) => Some(e),
            None => if first || self.pause(elapsed_nanos) > 0 {
                live
            } else {
                None
            },
        }
    }

    /// One look of a job that paces itself: how long to sleep before the next
    /// look, and zero when it may go on. `first` is the look before any
    /// sleep.
    pub fn throttle(&self, first: bool, elapsed_nanos: u64, live: Result<(), Error>) -> (r: Result<
        u64,
        Error,
    >)
        ensures
            match r {
                Ok(wait) => {
                    &&& self.pacing_refusal(first, elapsed_nanos, refusal(live)) is None
                    &&& wait == self.pause(elapsed_nanos)
                },
                Err(e) => self.pacing_refusal(first, elapsed_nanos, refusal(live)) == Some(e@),
            },
    {
        match self.ensure_time(elapsed_nanos) {
            Ok(()) => {},
            Err(error) => {
                return Err(error);
            },
        }
        let wait: u64 = self.throttle_nanos(elapsed_nanos);
        if first || wait > 0 {
            match live {
                Ok(()) => {},
                Err(error) => {
                    return Err(error);
                },
            }
        }
        Ok(wait)
    }

    /// Input read so far; the account never goes down.
    pub fn account_read_bytes(&mut self, bytes: u64)
        ensures
            *final(self) == (CompactionExecutionBudget {
                read_bytes: spec_max(old(self).read_bytes as int, bytes as int) as u64,
                ..*old(self)
            }),
    {
        self.read_bytes = max_64(self.read_bytes, bytes);
    }

    pub open spec fn headroom_refusal(
        self,
        pool: CompactionDiskReservationPool,
        elapsed_nanos: u64,
        available: AvailableBytes,
    ) -> Option<ErrorView> {
        match time_refusal(self.time_budget_ms, elapsed_nanos) {
            Some(e) => Some(e),
            None => match self.disk_reservation {
                Some(_) => CompactionDiskReservation::headroom_refusal(
                    pool,
                    self.disk_reserve_bytes,
                    available,
                ),
                None => probe_refusal(
                    available,
                    sat64(
                        self.disk_reserve_bytes + monus(
                            self.max_output_bytes as int,
                            self.output_bytes as int,
                        ),
                    ),
                ),
            },
        }
    }

    /// Whether the job may write another output.
    pub fn ensure_output_headroom(
        &self,
        pool: &CompactionDiskReservationPool,
        elapsed_nanos: u64,
        available: AvailableBytes,
    ) -> (r: Result<(), Error>)
        ensures
            match r {
                Ok(()) => self.headroom_refusal(*pool, elapsed_nanos, available) is None,
                Err(e) => self.headroom_refusal(*pool, elapsed_nanos, available) == Some(e@),
            },
    {
        match self.ensure_time(elapsed_nanos) {
            Ok(()) => {},
            Err(error) => {
                return Err(error);
            },
        }
        match &self.disk_reservation {
            Some(reservation) => reservation.ensure_headroom(
                pool,
                self.disk_reserve_bytes,
                available,
            ),
            None => {
                let remaining: u64 = self.max_output_bytes.saturating_sub(self.output_bytes);
                let required: u64 = self.disk_reserve_bytes.saturating_add(remaining);
                check_probe(available, required)
            },
        }
    }

    /// Counts an output and refuses the job once it wrote too much. The
    /// output stays counted either way.
    pub fn account_output_bytes(&mut self, bytes: u64) -> (r: Result<(), Error>)
        ensures
            *final(self) == (CompactionExecutionBudget {
                output_bytes: sat64(old(self).output_bytes + bytes) as u64,
                ..*old(self)
            }),
            r is Ok <==> final(self).output_bytes <= old(self).max_output_bytes,
            r matches Err(e) ==> e@ == ErrorView::Internal(
                abort_message(
                    "output_budget_exceeded"@,
                    "generated "@ + decimal_digits(final(self).output_bytes as nat)
                        + " bytes, limit "@ + decimal_digits(old(self).max_output_bytes as nat)
                        + " bytes"@,
                ),
            ),
    {
        self.output_bytes = self.output_bytes.saturating_add(bytes);
        if self.output_bytes > self.max_output_bytes {
            let detail: String = String::from_str("generated ").concat(
                decimal(self.output_bytes).as_str(),
            ).concat(" bytes, limit ").concat(decimal(self.max_output_bytes).as_str()).concat(
                " bytes",
            );
            return Err(compaction_abort("output_budget_exceeded", detail.as_str()));
        }
        Ok(())
    }

    /// Turns an accounted output into written bytes of the reservation.
    pub fn settle_output(&mut self, pool: &mut CompactionDiskReservationPool, bytes: u64)
        ensures
            match old(self).disk_reservation {
                None => *final(self) == *old(self) && *final(pool) == *old(pool),
                Some(reservation) => {
                    &&& *final(self) == (CompactionExecutionBudget {
                        disk_reservation: Some(
                            CompactionDiskReservation {
                                remaining: monus(reservation.remaining as int, bytes as int) as u64,
                            },
                        ),
                        ..*old(self)
                    })
                    &&& final(pool).remaining_output_bytes == monus(
                        old(pool).remaining_output_bytes as int,
                        spec_min(bytes as int, reservation.remaining as int),
                    )
                },
            },
    {
        match self.disk_reservation.take() {
            None => {},
            Some(reservation) => {
                let mut reservation = reservation;
                reservation.account_output(pool, bytes);
                self.disk_reservation = Some(reservation);
            },
        }
    }
}

} // verus!
