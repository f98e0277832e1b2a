//! When the wait for a killed program ends.
use vstd::prelude::*;

verus! {

/// How long a killed program is waited for, in milliseconds.
pub const REAP_DEADLINE_MS: u64 = 2000;

/// The pause between two looks at a killed program, in milliseconds.
pub const REAP_POLL_MS: u64 = 10;

/// What comes after a look at a killed program.
#[derive(Debug, Clone, Copy, PartialEq, Eq, Structural)]
pub enum ReapStep {
    /// It has ended: nothing is left to do.
    Done,
    /// Look again after the pause.
    Poll,
    /// It has outlived the deadline: another thread is to wait for it.
    HandOver,
}

/// What comes after a look at a killed program, `waited_ms` after the wait began.
/// The caller never waits past the deadline, and a program that has ended is done
/// with, however late it is seen.
pub fn reap_step(ended: bool, waited_ms: u64) -> (r: ReapStep)
    ensures
        r == (if ended {
            ReapStep::Done
        } else if waited_ms >= REAP_DEADLINE_MS {
            ReapStep::HandOver
        } else {
            ReapStep::Poll
        }),
{
    if ended {
        ReapStep::Done
    } else if waited_ms >= REAP_DEADLINE_MS {
        ReapStep::HandOver
    } else {
        ReapStep::Poll
    }
}

} // verus!
