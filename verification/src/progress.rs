//! Pure byte accounting for a transfer: per-stream and whole-batch counters,
//! percentage and throughput derivation. No I/O; never blocks.

use vstd::prelude::*;

verus! {

/// One level of byte accounting: how many bytes are expected (`total`), how
/// many have been moved so far (`transferred`), and when the counter was
/// started (`started_ms`, a millisecond timestamp supplied by the caller).
pub struct ProgressStates {
    pub total: u64,
    pub transferred: u64,
    pub started_ms: u64,
}

impl ProgressStates {
    /// The counter never reports more bytes moved than expected.
    pub open spec fn wf(self) -> bool {
        self.transferred <= self.total
    }

    /// Progress as a whole percentage in `0..=100`; an empty transfer counts
    /// as already complete.
    pub open spec fn progress_percent(self) -> int {
        if self.total == 0 {
            100
        } else {
            self.transferred * 100 / (self.total as int)
        }
    }

    /// Throughput in bytes per second given the current time, with the
    /// elapsed time floored to one millisecond, saturating at `u64::MAX`.
    pub open spec fn bytes_per_second(self, now_ms: u64) -> int {
        let elapsed: int = if now_ms > self.started_ms {
            now_ms - self.started_ms
        } else {
            1
        };
        let raw = self.transferred * 1000 / elapsed;
        if raw > u64::MAX {
            u64::MAX as int
        } else {
            raw
        }
    }

    pub fn new() -> (r: ProgressStates)
        ensures
            r.wf(),
            r.total == 0,
            r.transferred == 0,
            r.started_ms == 0,
    {
        ProgressStates { total: 0, transferred: 0, started_ms: 0 }
    }

    /// Reset the counter for a new stream or batch: nothing transferred yet,
    /// `total` bytes expected, clock started at `now_ms`.
    pub fn init(&mut self, total: u64, now_ms: u64)
        ensures
            final(self).wf(),
            final(self).total == total,
            final(self).transferred == 0,
            final(self).started_ms == now_ms,
    {
        self.total = total;
        self.transferred = 0;
        self.started_ms = now_ms;
    }

    /// Record `delta` more bytes moved. Callers guarantee they never report
    /// more than `total` in aggregate.
    pub fn update_progress(&mut self, delta: u64)
        requires
            old(self).transferred + delta <= old(self).total,
        ensures
            final(self).wf(),
            final(self).transferred == old(self).transferred + delta,
            final(self).total == old(self).total,
            final(self).started_ms == old(self).started_ms,
    {
        self.transferred = self.transferred + delta;
    }

    /// Current progress as a whole percentage, `0..=100`.
    pub fn calc_progress(&self) -> (r: u64)
        requires
            self.wf(),
        ensures
            r == self.progress_percent(),
            r <= 100,
    {
        if self.total == 0 {
            100
        } else {
            let r128: u128 = (self.transferred as u128) * 100 / (self.total as u128);
            proof {
                assert(self.transferred * 100 <= self.total * 100) by (nonlinear_arith)
                    requires
                        self.transferred <= self.total,
                ;
                assert(self.transferred * 100 / self.total as int <= 100) by (nonlinear_arith)
                    requires
                        self.transferred * 100 <= self.total * 100,
                        self.total > 0,
                ;
            }
            r128 as u64
        }
    }

    /// Throughput in bytes per second at time `now_ms`. Always finite and
    /// non-negative, for any elapsed duration including zero.
    pub fn calc_bytes_per_second(&self, now_ms: u64) -> (r: u64)
        ensures
            r == self.bytes_per_second(now_ms),
    {
        let elapsed: u64 = if now_ms > self.started_ms {
            now_ms - self.started_ms
        } else {
            1
        };
        let raw: u128 = (self.transferred as u128) * 1000 / (elapsed as u128);
        if raw > u64::MAX as u128 {
            u64::MAX
        } else {
            raw as u64
        }
    }

    /// The timestamp passed to `init`, for duration reporting.
    pub fn started(&self) -> (r: u64)
        ensures
            r == self.started_ms,
    {
        self.started_ms
    }
}

/// The per-invocation state of a transfer: aggregate (`full`) and
/// current-entry (`partial`) progress, and the cooperative cancellation flag.
pub struct TransferStates {
    pub full: ProgressStates,
    pub partial: ProgressStates,
    pub aborted: bool,
}

impl TransferStates {
    pub open spec fn wf(self) -> bool {
        self.full.wf() && self.partial.wf()
    }

    pub fn new() -> (r: TransferStates)
        ensures
            r.wf(),
            !r.aborted,
            r.full.total == 0,
            r.full.transferred == 0,
            r.partial.total == 0,
            r.partial.transferred == 0,
    {
        TransferStates { full: ProgressStates::new(), partial: ProgressStates::new(), aborted: false }
    }

    /// Start a fresh invocation: both counters cleared, cancellation cleared.
    /// This is the only operation that ever clears `aborted`.
    pub fn reset(&mut self)
        ensures
            final(self).wf(),
            !final(self).aborted,
            final(self).full.total == 0,
            final(self).full.transferred == 0,
            final(self).partial.total == 0,
            final(self).partial.transferred == 0,
    {
        self.full = ProgressStates::new();
        self.partial = ProgressStates::new();
        self.aborted = false;
    }

    /// Request cancellation; once set it stays set until the next `reset`.
    pub fn abort(&mut self)
        ensures
            *final(self) == (TransferStates { aborted: true, ..*old(self) }),
    {
        self.aborted = true;
    }

    /// Whether cancellation has been requested in this invocation.
    pub fn aborted(&self) -> (r: bool)
        ensures
            r == self.aborted,
    {
        self.aborted
    }
}

} // verus!
