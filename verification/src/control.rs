//! The decisions of the command-line controller.

use vstd::prelude::*;

verus! {

/// The controller gives up waiting for the daemon's debug log after this many waits.
pub const LOG_WAIT_LIMIT: u32 = 20;

/// What the controller does while the daemon's debug log does not exist yet.
#[derive(Clone, Copy, Debug, PartialEq, Eq, Structural)]
pub enum LogWait {
    /// The log exists: follow it.
    Follow,
    /// Wait a little and look again.
    Wait,
    /// Too many waits: give up.
    GiveUp,
}

/// What to do after `retries` waits, given whether the log exists: follow it when it
/// does, give up once more than `LOG_WAIT_LIMIT` waits have passed, else wait.
pub fn log_wait_step(retries: u32, log_exists: bool) -> (res: LogWait)
    ensures
        log_exists ==> res == LogWait::Follow,
        !log_exists && retries > LOG_WAIT_LIMIT ==> res == LogWait::GiveUp,
        !log_exists && retries <= LOG_WAIT_LIMIT ==> res == LogWait::Wait,
{
    if log_exists {
        LogWait::Follow
    } else if retries > LOG_WAIT_LIMIT {
        LogWait::GiveUp
    } else {
        LogWait::Wait
    }
}

} // verus!
