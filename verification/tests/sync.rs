use kernel_core::error::SyncError;
use kernel_core::sync::condvar::Condvar;
use kernel_core::sync::condvars::CondvarTable;
use kernel_core::sync::mutex::{Mutex, MutexBlocking, MutexSpin};
use kernel_core::sync::primitive::Primitive;
use kernel_core::sync::semaphore::Semaphore;
use kernel_core::sync::Acquire;

#[test]
fn spinning_mutex_polls() {
    let mut mutex = MutexSpin::new();
    assert!(!mutex.locked);
    assert_eq!(mutex.lock(), Acquire::Granted);
    assert!(mutex.locked);
    assert_eq!(mutex.lock(), Acquire::Spin);
    assert_eq!(mutex.get_waking_tid(), None);
    mutex.unlock();
    assert!(!mutex.locked);
    assert_eq!(mutex.lock(), Acquire::Granted);
}

#[test]
fn blocking_mutex_hands_over_in_order() {
    let mut mutex = MutexBlocking::new();
    assert_eq!(mutex.lock(7), Acquire::Granted);
    assert_eq!(mutex.get_waking_tid(), None);
    assert_eq!(mutex.lock(3), Acquire::Blocked);
    assert_eq!(mutex.lock(9), Acquire::Blocked);
    assert_eq!(mutex.get_waking_tid(), Some(3));
    assert_eq!(mutex.unlock(), Some(3));
    assert!(mutex.locked);
    assert_eq!(mutex.get_waking_tid(), Some(9));
    assert_eq!(mutex.unlock(), Some(9));
    assert!(mutex.locked);
    assert_eq!(mutex.unlock(), None);
    assert!(!mutex.locked);
}

#[test]
fn mutex_variants_share_one_interface() {
    let mut spin = Mutex::new(false);
    let mut blocking = Mutex::new(true);
    assert!(matches!(spin, Mutex::Spin(_)));
    assert!(matches!(blocking, Mutex::Blocking(_)));
    assert_eq!(spin.lock(1), Acquire::Granted);
    assert_eq!(blocking.lock(1), Acquire::Granted);
    assert_eq!(spin.lock(2), Acquire::Spin);
    assert_eq!(blocking.lock(2), Acquire::Blocked);
    assert_eq!(spin.get_waking_tid(), None);
    assert_eq!(blocking.get_waking_tid(), Some(2));
    assert_eq!(spin.unlock(), None);
    assert_eq!(blocking.unlock(), Some(2));
}

#[test]
fn semaphore_counts_and_queues() {
    let mut sem = Semaphore::new(2);
    assert_eq!(sem.down(0), Acquire::Granted);
    assert_eq!(sem.down(1), Acquire::Granted);
    assert_eq!(sem.count, 0);
    assert_eq!(sem.down(2), Acquire::Blocked);
    assert_eq!(sem.down(3), Acquire::Blocked);
    assert_eq!(sem.get_waking_tid(), Some(2));
    assert_eq!(sem.up(), Some(2));
    assert_eq!(sem.count, 0);
    assert_eq!(sem.up(), Some(3));
    assert_eq!(sem.up(), None);
    assert_eq!(sem.count, 1);
    assert_eq!(sem.get_waking_tid(), None);
}

#[test]
fn primitive_dispatches_to_its_kind() {
    let mut mutex = Primitive::Mutex(Mutex::new(true));
    let mut sem = Primitive::Semaphore(Semaphore::new(0));
    assert_eq!(mutex.acquire(4), Acquire::Granted);
    assert_eq!(mutex.acquire(5), Acquire::Blocked);
    assert_eq!(sem.acquire(6), Acquire::Blocked);
    assert_eq!(mutex.get_waking_tid(), Some(5));
    assert_eq!(sem.get_waking_tid(), Some(6));
    assert_eq!(mutex.release(), Some(5));
    assert_eq!(sem.release(), Some(6));
    assert_eq!(sem.release(), None);
}

#[test]
fn signal_wakes_exactly_the_one_waiter() {
    let mut condvar = Condvar::new();
    condvar.wait(5);
    assert_eq!(condvar.signal(), Some(5));
    assert!(condvar.wait_queue.is_empty());
    // a signal without waiters is a no-op
    assert_eq!(condvar.signal(), None);
    assert!(condvar.wait_queue.is_empty());
}

#[test]
fn signal_wakes_one_waiter_at_a_time_in_order() {
    let mut condvar = Condvar::new();
    condvar.wait(2);
    condvar.wait(0);
    condvar.wait(1);
    assert_eq!(condvar.signal(), Some(2));
    assert_eq!(condvar.wait_queue.len(), 2);
    assert_eq!(condvar.signal(), Some(0));
    assert_eq!(condvar.signal(), Some(1));
    assert_eq!(condvar.signal(), None);
}

#[test]
fn condvar_table_reuses_slots_and_checks_handles() {
    let mut table = CondvarTable::new();
    table.add_thread();
    table.add_thread();
    assert_eq!(table.create(), 0);
    assert_eq!(table.create(), 1);
    assert_eq!(table.next_id(), 2);
    assert_eq!(table.wait(0, 2), Err(SyncError::InvalidHandle));
    assert_eq!(table.wait(2, 0), Err(SyncError::InvalidHandle));
    assert_eq!(table.signal(2), Err(SyncError::InvalidHandle));
    assert_eq!(table.wait(0, 0), Ok(()));
    assert_eq!(table.waiting_for(0), Some(0));
    assert_eq!(table.wait(0, 1), Err(SyncError::InvalidArgument));
    assert_eq!(table.remove(0), Err(SyncError::Busy));
    assert_eq!(table.signal(0), Ok(Some(0)));
    assert_eq!(table.waiting_for(0), None);
    assert_eq!(table.signal(0), Ok(None));
    assert_eq!(table.remove(0), Ok(()));
    assert_eq!(table.remove(0), Err(SyncError::InvalidHandle));
    assert_eq!(table.signal(0), Err(SyncError::InvalidHandle));
    assert_eq!(table.create(), 0);
}
