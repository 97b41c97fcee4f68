//! The lock on a database: one process at a time, any number of holders within
//! it.

use vstd::prelude::*;

verus! {

/// What to do to get the lock on a database.
#[derive(Clone, Copy, Debug, PartialEq, Eq, Structural)]
pub enum LockStep {
    /// There is no such database, so nothing to protect.
    Nothing,
    /// This process holds the lock already: share it.
    Share,
    /// Ask the system for it.
    Ask,
}

/// What to do to get the lock on a database. Within a process a second holder
/// shares the first one's lock: asking the system again would wait for itself.
pub fn acquire(dir_exists: bool, held_here: bool) -> (r: LockStep)
    ensures
        r == (if !dir_exists {
            LockStep::Nothing
        } else if held_here {
            LockStep::Share
        } else {
            LockStep::Ask
        }),
{
    if !dir_exists {
        LockStep::Nothing
    } else if held_here {
        LockStep::Share
    } else {
        LockStep::Ask
    }
}

/// What the system says to the request for a lock.
#[derive(Clone, Copy, Debug, PartialEq, Eq, Structural)]
pub enum LockReply {
    Granted,
    /// Another process holds it.
    Busy,
    Failed,
}

/// What becomes of a request for a lock.
#[derive(Clone, Copy, Debug, PartialEq, Eq, Structural)]
pub enum LockOutcome {
    Held,
    /// Wait until the other process is done.
    Wait,
    /// Leave it for now.
    NotNow,
    Failed,
}

/// What becomes of a request for a lock: one that may wait waits for the other
/// process, one that may not leaves it.
pub fn settle(reply: LockReply, may_wait: bool) -> (r: LockOutcome)
    ensures
        r == (match reply {
            LockReply::Granted => LockOutcome::Held,
            LockReply::Busy => if may_wait {
                LockOutcome::Wait
            } else {
                LockOutcome::NotNow
            },
            LockReply::Failed => LockOutcome::Failed,
        }),
{
    match reply {
        LockReply::Granted => LockOutcome::Held,
        LockReply::Busy => if may_wait {
            LockOutcome::Wait
        } else {
            LockOutcome::NotNow
        },
        LockReply::Failed => LockOutcome::Failed,
    }
}

} // verus!
