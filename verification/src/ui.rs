//! A scripted user-interaction surface: a deterministic clock and a polled
//! cancellation request that fires after a chosen number of input polls.
//! It stands in for a real terminal wherever one is not wanted.

use vstd::prelude::*;

use crate::provider::UserIo;

verus! {

pub struct ScriptedUi {
    /// The current scripted time, advanced by `step_ms` per reading.
    pub clock_ms: u64,
    pub step_ms: u64,
    /// How many times input has been polled.
    pub polls: u64,
    /// How many progress redraws were requested.
    pub draws: u64,
    /// When set, polling reports a cancellation request once more than this
    /// many polls have happened.
    pub abort_after_polls: Option<u64>,
}

impl ScriptedUi {
    pub fn new(step_ms: u64) -> (r: ScriptedUi)
        ensures
            r.clock_ms == 0,
            r.step_ms == step_ms,
            r.polls == 0,
            r.draws == 0,
            r.abort_after_polls is None,
    {
        ScriptedUi { clock_ms: 0, step_ms, polls: 0, draws: 0, abort_after_polls: None }
    }

    /// Request cancellation at the first poll after `n` polls have happened.
    pub fn abort_after(&mut self, n: u64)
        ensures
            *final(self) == (ScriptedUi { abort_after_polls: Some(n), ..*old(self) }),
    {
        self.abort_after_polls = Some(n);
    }
}

impl UserIo for ScriptedUi {
    fn read_input_event(&mut self) -> bool {
        if self.polls < u64::MAX {
            self.polls = self.polls + 1;
        }
        match self.abort_after_polls {
            Some(n) => self.polls > n,
            None => false,
        }
    }

    fn now_millis(&mut self) -> u64 {
        if self.clock_ms <= u64::MAX - self.step_ms {
            self.clock_ms = self.clock_ms + self.step_ms;
        }
        self.clock_ms
    }

    fn draw_progress(&mut self, full_percent: u64, partial_percent: u64) {
        if self.draws < u64::MAX {
            self.draws = self.draws + 1;
        }
    }
}

} // verus!
