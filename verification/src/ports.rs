//! Device programming as data: lists of port writes, and bounded waits.

use vstd::prelude::*;

verus! {

/// One byte for one I/O port.
#[derive(Debug, Clone, Copy, PartialEq, Eq, Structural)]
pub struct PortWrite {
    pub port: u16,
    pub value: u8,
}

/// How many times a status register is read before a device counts as absent.
pub const POLL_LIMIT: u32 = 100_000;

/// What a look at a status register leads to.
#[derive(Debug, Clone, Copy, PartialEq, Eq, Structural)]
pub enum PollStep {
    Ready,
    Again,
    TimedOut,
}

/// A wait for a device that looks at its status a bounded number of times.
pub struct Poll {
    remaining: u32,
}

impl Poll {
    /// How many more looks the wait may take.
    pub closed spec fn looks_left(&self) -> u32 {
        self.remaining
    }

    pub fn new(limit: u32) -> (poll: Self)
        ensures
            poll.looks_left() == limit,
    {
        Poll { remaining: limit }
    }

    /// Takes the outcome of one look. The wait ends as soon as the device is ready, or
    /// with the last look.
    pub fn look(&mut self, ready: bool) -> (step: PollStep)
        ensures
            final(self).looks_left() == if old(self).looks_left() == 0 {
                0
            } else {
                old(self).looks_left() - 1
            },
            step == if ready {
                PollStep::Ready
            } else if old(self).looks_left() > 1 {
                PollStep::Again
            } else {
                PollStep::TimedOut
            },
    {
        if self.remaining > 0 {
            self.remaining = self.remaining - 1;
        }
        if ready {
            PollStep::Ready
        } else if self.remaining > 0 {
            PollStep::Again
        } else {
            PollStep::TimedOut
        }
    }
}

} // verus!
