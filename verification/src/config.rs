//! Constants of the kernel core.
use vstd::prelude::*;

verus! {

/// The stride that a unit of priority 1 would advance by at each dispatch;
/// a unit of priority `p` advances by `BIG_STRIDE / p`.
pub const BIG_STRIDE: u64 = 0xFFFF_FFFF_FFFF_FFFF;

/// The lowest priority that a unit can have.
pub const MIN_PRIORITY: u64 = 2;

/// The priority of a new unit.
pub const DEFAULT_PRIORITY: u64 = 16;

/// Number of entries of a unit's table of syscall counts.
pub const MAX_SYSCALL_NUM: usize = 500;

/// The size of a page of memory in bytes.
pub const PAGE_SIZE: usize = 4096;

/// What a lock or down request returns when granting it could end in a
/// deadlock.
pub const WOULD_DEADLOCK: isize = -0xdead;

} // verus!
