//! The errors that the operations on resources report.
use vstd::prelude::*;

verus! {

/// Why a request on a resource was turned down. The state is as it was
/// before the request, and the caller is not blocked.
#[derive(Clone, Copy, PartialEq, Eq, Debug, Structural)]
pub enum SyncError {
    /// A thread id or resource id lies outside its table, or names an empty
    /// slot.
    InvalidHandle,
    /// Granting the request could end in a deadlock: with it, no order is
    /// left in which every thread can finish.
    WouldDeadlock,
    /// An argument is out of range, or the request makes no sense for the
    /// thread that places it: a thread that waits places no further request.
    InvalidArgument,
    /// The thread unlocks a mutex that it does not hold, or raises a
    /// semaphore of which it holds no unit and which cannot grow further.
    NotHeld,
    /// The resource is to be removed while a thread holds or awaits it.
    Busy,
}

} // verus!
