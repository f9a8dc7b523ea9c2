//! The operations that the core offers at the syscall boundary. Each takes
//! the kernel state, acts for the running unit, and returns a number: not
//! negative on success, negative on failure. A call that parks the running
//! unit returns at once; the number is what the unit sees when it runs
//! again.
use crate::config::WOULD_DEADLOCK;
use crate::error::SyncError;
use crate::sync::Acquire;
use vstd::prelude::*;

pub mod fs;
pub mod process;
pub mod sync;

verus! {

/// The number that a lock or down request returns: 0 where the unit holds
/// the resource now or will hold it when it runs again, the deadlock
/// sentinel where the request was refused as unsafe, and -1 for any other
/// failure.
pub open spec fn acquire_code(outcome: Result<Acquire, SyncError>) -> isize {
    match outcome {
        Ok(_) => 0isize,
        Err(SyncError::WouldDeadlock) => WOULD_DEADLOCK,
        Err(_) => -1isize,
    }
}

/// The number that a release, a signal or a wait returns: 0 on success and
/// -1 on failure.
pub open spec fn release_code(outcome: Result<Option<usize>, SyncError>) -> isize {
    match outcome {
        Ok(_) => 0isize,
        Err(_) => -1isize,
    }
}

/// The number for the outcome of a lock or down request.
pub fn acquire_number(outcome: Result<Acquire, SyncError>) -> (code: isize)
    ensures
        code == acquire_code(outcome),
{
    match outcome {
        Ok(_) => 0,
        Err(SyncError::WouldDeadlock) => WOULD_DEADLOCK,
        Err(_) => -1,
    }
}

/// The number for the outcome of a release, a signal or a wait.
pub fn release_number(outcome: Result<Option<usize>, SyncError>) -> (code: isize)
    ensures
        code == release_code(outcome),
{
    match outcome {
        Ok(_) => 0,
        Err(_) => -1,
    }
}

} // verus!
